//! Decisions of the value-tree deserializer, and reading documents from a stream.
use vstd::prelude::*;
use vstd::slice::slice_subrange;

use crate::codec::{le_i32, read_i32};
use crate::owned::{canon_from, document_bytes, from_slice, keys_from, wf_from, OwnedError, MAX_NESTING};
use crate::raw::doc_ok;
use crate::spec::BinarySubtype;
use crate::value::{Bson, Document};

verus! {

/// What a destination type tells the deserializer about what it expects.
#[derive(Debug, Clone, Copy, PartialEq, Eq, Structural)]
pub enum DeserializerHint {
    /// Nothing: deserialize normally.
    NoHint,
    /// A binary value of this subtype is expected.
    BinarySubtype(BinarySubtype),
    /// The raw value itself is wanted, borrowed where possible.
    RawBson,
}

/// Why the deserializer refused its input.
#[derive(Debug, PartialEq)]
pub enum DeError {
    /// Another value was asked for after the input was used up.
    EndOfStream,
    /// A binary value of another subtype than the hint asked for.
    UnexpectedSubtype { expected: BinarySubtype, actual: BinarySubtype },
    /// An enum was read from an empty document.
    EmptyEnumDocument,
    /// An enum document holds a second key.
    ExtraEnumKey { key: String },
    /// An enum was read from a value that is neither a string nor a document.
    NotAnEnum,
    /// A raw document was asked for, but the value is not a document.
    ExpectedRawDocument,
    /// A raw array was asked for, but the value is not an array.
    ExpectedRawArray,
    /// A tuple variant's payload is not an array.
    ExpectedTupleVariant,
    /// A struct variant's payload is not a document.
    ExpectedStructVariant,
    /// A unit variant carries a payload.
    UnexpectedPayload,
}

/// The shape of an enum variant.
#[derive(Debug, Clone, Copy, PartialEq, Eq, Structural)]
pub enum VariantShape {
    Unit,
    Newtype,
    Tuple,
    Struct,
}

/// What a variant of shape `shape` makes of its payload.
pub open spec fn payload_rule(shape: VariantShape, val: Option<Bson>, r: Result<Option<Bson>, DeError>) -> bool {
    match (shape, val) {
        (VariantShape::Unit, None) => r == Ok::<Option<Bson>, DeError>(None),
        (VariantShape::Unit, Some(_)) => r == Err::<Option<Bson>, DeError>(DeError::UnexpectedPayload),
        (_, None) => r == Err::<Option<Bson>, DeError>(DeError::EndOfStream),
        (VariantShape::Newtype, Some(v)) => r == Ok::<Option<Bson>, DeError>(Some(v)),
        (VariantShape::Tuple, Some(v)) => if v is Array {
            r == Ok::<Option<Bson>, DeError>(Some(v))
        } else {
            r == Err::<Option<Bson>, DeError>(DeError::ExpectedTupleVariant)
        },
        (VariantShape::Struct, Some(v)) => if v is Document {
            r == Ok::<Option<Bson>, DeError>(Some(v))
        } else {
            r == Err::<Option<Bson>, DeError>(DeError::ExpectedStructVariant)
        },
    }
}

/// Checks an enum variant's payload against the variant's shape: a unit variant has
/// none, a tuple variant has an array, a struct variant has a document.
pub fn variant_payload(shape: VariantShape, val: Option<Bson>) -> (r: Result<Option<Bson>, DeError>)
    ensures
        payload_rule(shape, val, r),
{
    match shape {
        VariantShape::Unit => match val {
            None => Ok(None),
            Some(_) => Err(DeError::UnexpectedPayload),
        },
        VariantShape::Newtype => match val {
            None => Err(DeError::EndOfStream),
            Some(v) => Ok(Some(v)),
        },
        VariantShape::Tuple => match val {
            None => Err(DeError::EndOfStream),
            Some(Bson::Array(a)) => Ok(Some(Bson::Array(a))),
            Some(_) => Err(DeError::ExpectedTupleVariant),
        },
        VariantShape::Struct => match val {
            None => Err(DeError::EndOfStream),
            Some(Bson::Document(d)) => Ok(Some(Bson::Document(d))),
            Some(_) => Err(DeError::ExpectedStructVariant),
        },
    }
}

/// A value handed out whole, or an object id as its 12 bytes.
#[derive(Debug, PartialEq)]
pub enum BytesOrValue {
    Bytes([u8; 12]),
    Value(Bson),
}

/// The newtype wrappers that ask the deserializer for something particular.
#[derive(Debug, Clone, Copy, PartialEq, Eq, Structural)]
pub enum NewtypeKind {
    /// A UUID: a binary value of the UUID subtype.
    Uuid,
    /// A raw value, borrowed where possible.
    RawBson,
    /// A raw document.
    RawDocument,
    /// A raw array.
    RawArray,
    /// A value read as human readable, whatever the deserializer presents itself as.
    HumanReadable,
    /// Any other newtype, read as its inner value.
    Other,
}

/// A deserializer over one owned value.
pub struct Deserializer {
    pub value: Option<Bson>,
    pub human_readable: bool,
}

/// A binary value breaks the subtype hint.
pub open spec fn breaks_hint(v: Bson, hint: DeserializerHint) -> bool {
    hint matches DeserializerHint::BinarySubtype(s) && v matches Bson::Binary(b) && b.subtype != s
}

impl Deserializer {
    /// A deserializer over `value` that presents itself as human readable.
    pub fn new(value: Bson) -> (r: Deserializer)
        ensures
            r.value == Some(value),
            r.human_readable,
    {
        Deserializer { value: Some(value), human_readable: true }
    }

    /// The hint that a newtype wrapper asks for; a raw document or array also needs
    /// the value to have that shape.
    pub fn newtype_hint(&mut self, kind: NewtypeKind) -> (r: Result<DeserializerHint, DeError>)
        ensures
            final(self).value == old(self).value,
            final(self).human_readable == (old(self).human_readable || kind == NewtypeKind::HumanReadable),
            r == (match kind {
                NewtypeKind::Uuid => Ok::<DeserializerHint, DeError>(DeserializerHint::BinarySubtype(BinarySubtype::Uuid)),
                NewtypeKind::RawBson => Ok(DeserializerHint::RawBson),
                NewtypeKind::RawDocument => if old(self).value matches Some(Bson::Document(_)) {
                    Ok(DeserializerHint::RawBson)
                } else {
                    Err(DeError::ExpectedRawDocument)
                },
                NewtypeKind::RawArray => if old(self).value matches Some(Bson::Array(_)) {
                    Ok(DeserializerHint::RawBson)
                } else {
                    Err(DeError::ExpectedRawArray)
                },
                NewtypeKind::HumanReadable => Ok(DeserializerHint::NoHint),
                NewtypeKind::Other => Ok(DeserializerHint::NoHint),
            }),
    {
        match kind {
            NewtypeKind::Uuid => Ok(DeserializerHint::BinarySubtype(BinarySubtype::Uuid)),
            NewtypeKind::RawBson => Ok(DeserializerHint::RawBson),
            NewtypeKind::RawDocument => match &self.value {
                Some(Bson::Document(_)) => Ok(DeserializerHint::RawBson),
                _ => Err(DeError::ExpectedRawDocument),
            },
            NewtypeKind::RawArray => match &self.value {
                Some(Bson::Array(_)) => Ok(DeserializerHint::RawBson),
                _ => Err(DeError::ExpectedRawArray),
            },
            NewtypeKind::HumanReadable => {
                self.human_readable = true;
                Ok(DeserializerHint::NoHint)
            },
            NewtypeKind::Other => Ok(DeserializerHint::NoHint),
        }
    }

    /// Takes the value out for a reader of bytes: a deserializer that is not human
    /// readable hands an object id out as its 12 bytes.
    pub fn take_bytes(&mut self) -> (r: Result<BytesOrValue, DeError>)
        ensures
            final(self).value is None,
            match old(self).value {
                None => r == Err::<BytesOrValue, DeError>(DeError::EndOfStream),
                Some(Bson::ObjectId(o)) => if old(self).human_readable {
                    r == Ok::<BytesOrValue, DeError>(BytesOrValue::Value(Bson::ObjectId(o)))
                } else {
                    r == Ok::<BytesOrValue, DeError>(BytesOrValue::Bytes(o.bytes))
                },
                Some(v) => r == Ok::<BytesOrValue, DeError>(BytesOrValue::Value(v)),
            },
    {
        match self.value.take() {
            None => Err(DeError::EndOfStream),
            Some(Bson::ObjectId(o)) => {
                if self.human_readable {
                    Ok(BytesOrValue::Value(Bson::ObjectId(o)))
                } else {
                    Ok(BytesOrValue::Bytes(o.bytes))
                }
            },
            Some(v) => Ok(BytesOrValue::Value(v)),
        }
    }

    /// Takes the value out, checking it against the hint: a binary value must have
    /// the subtype that the hint names.
    pub fn take_checked(&mut self, hint: DeserializerHint) -> (r: Result<Bson, DeError>)
        ensures
            final(self).value is None,
            final(self).human_readable == old(self).human_readable,
            match old(self).value {
                None => r == Err::<Bson, DeError>(DeError::EndOfStream),
                Some(v) => if breaks_hint(v, hint) {
                    r == Err::<Bson, DeError>(DeError::UnexpectedSubtype {
                        expected: hint->BinarySubtype_0,
                        actual: v->Binary_0.subtype,
                    })
                } else {
                    r == Ok::<Bson, DeError>(v)
                },
            },
    {
        let v = match self.value.take() {
            Some(v) => v,
            None => return Err(DeError::EndOfStream),
        };
        if let DeserializerHint::BinarySubtype(expected) = hint {
            if let Bson::Binary(b) = &v {
                if b.subtype != expected {
                    return Err(DeError::UnexpectedSubtype { expected, actual: b.subtype });
                }
            }
        }
        Ok(v)
    }

    /// Reads an option: `Null` is none, any other value is some.
    pub fn take_option(&mut self) -> (r: Result<Option<Bson>, DeError>)
        ensures
            final(self).value is None,
            match old(self).value {
                None => r == Err::<Option<Bson>, DeError>(DeError::EndOfStream),
                Some(Bson::Null) => r == Ok::<Option<Bson>, DeError>(None),
                Some(v) => r == Ok::<Option<Bson>, DeError>(Some(v)),
            },
    {
        match self.value.take() {
            None => Err(DeError::EndOfStream),
            Some(Bson::Null) => Ok(None),
            Some(v) => Ok(Some(v)),
        }
    }

    /// Reads an enum: a string names a unit variant; a document with one key names
    /// the variant and holds its payload.
    pub fn take_enum(&mut self) -> (r: Result<(String, Option<Bson>), DeError>)
        ensures
            final(self).value is None,
            match old(self).value {
                None => r == Err::<(String, Option<Bson>), DeError>(DeError::EndOfStream),
                Some(Bson::String(name)) => r == Ok::<(String, Option<Bson>), DeError>((name, None)),
                Some(Bson::Document(d)) => if d.entries@.len() == 0 {
                    r == Err::<(String, Option<Bson>), DeError>(DeError::EmptyEnumDocument)
                } else if d.entries@.len() == 1 {
                    r == Ok::<(String, Option<Bson>), DeError>((d.entries@[0].0, Some(d.entries@[0].1)))
                } else {
                    r == Err::<(String, Option<Bson>), DeError>(DeError::ExtraEnumKey { key: d.entries@[1].0 })
                },
                Some(_) => r == Err::<(String, Option<Bson>), DeError>(DeError::NotAnEnum),
            },
    {
        match self.value.take() {
            None => Err(DeError::EndOfStream),
            Some(Bson::String(name)) => Ok((name, None)),
            Some(Bson::Document(d)) => {
                let ghost e0 = d.entries@;
                let mut entries = d.entries;
                if entries.len() == 0 {
                    return Err(DeError::EmptyEnumDocument);
                }
                if entries.len() > 1 {
                    let (k, _) = entries.remove(1);
                    return Err(DeError::ExtraEnumKey { key: k });
                }
                let (k, v) = entries.remove(0);
                Ok((k, Some(v)))
            },
            Some(_) => Err(DeError::NotAnEnum),
        }
    }
}

/// Why a document could not be read from a stream.
#[derive(Debug, Clone, Copy, PartialEq, Eq, Structural)]
pub enum ReadError {
    /// The stream ends before the declared length.
    UnexpectedEof,
    /// The declared length is below the smallest document.
    SizeTooSmall,
    /// The bytes read are not a document.
    Invalid(OwnedError),
}

/// The stream holds at least the length it declares, which is at least a document's.
pub open spec fn holds_declared(s: Seq<u8>) -> bool {
    s.len() >= 4 && le_i32(s, 0) >= 5 && s.len() >= le_i32(s, 0)
}

/// The bytes that the stream's declared length covers.
pub open spec fn declared_prefix(s: Seq<u8>) -> Seq<u8> {
    s.subrange(0, le_i32(s, 0) as int)
}

/// Reads one document from the front of a stream: its declared length, then
/// exactly that many bytes in all.
pub fn from_reader(stream: &[u8]) -> (r: Result<Document, ReadError>)
    ensures
        stream@.len() < 4 ==> r == Err::<Document, ReadError>(ReadError::UnexpectedEof),
        stream@.len() >= 4 && le_i32(stream@, 0) < 5 ==> r == Err::<Document, ReadError>(ReadError::SizeTooSmall),
        stream@.len() >= 4 && le_i32(stream@, 0) >= 5 && stream@.len() < le_i32(stream@, 0) ==> r
            == Err::<Document, ReadError>(ReadError::UnexpectedEof),
        holds_declared(stream@) ==> (r is Ok <==> doc_ok(declared_prefix(stream@)) && wf_from(
            declared_prefix(stream@),
            4,
            MAX_NESTING as nat,
        )),
        holds_declared(stream@) && !doc_ok(declared_prefix(stream@)) ==> r matches Err(
            ReadError::Invalid(OwnedError::Raw(_)),
        ),
        holds_declared(stream@) && doc_ok(declared_prefix(stream@)) && canon_from(
            declared_prefix(stream@),
            4,
            MAX_NESTING as nat,
            false,
            0,
        ) && keys_from(declared_prefix(stream@), 4).no_duplicates() ==> (r matches Ok(d) && document_bytes(
            d,
            MAX_NESTING as nat,
        ) == declared_prefix(stream@)),
{
    let n = match read_i32(stream, 0) {
        Some(n) => n,
        None => return Err(ReadError::UnexpectedEof),
    };
    if n < 5 {
        return Err(ReadError::SizeTooSmall);
    }
    if stream.len() < n as usize {
        return Err(ReadError::UnexpectedEof);
    }
    match from_slice(slice_subrange(stream, 0, n as usize)) {
        Ok(d) => Ok(d),
        Err(e) => Err(ReadError::Invalid(e)),
    }
}

} // verus!
