use vstd::prelude::*;

verus! {

/// The one-byte subtype that classifies a binary payload.
#[derive(Debug, Clone, Copy, PartialEq, Eq, Structural)]
pub enum BinarySubtype {
    Generic,
    Function,
    BinaryOld,
    UuidOld,
    Uuid,
    Md5,
    Encrypted,
    Column,
    UserDefined(u8),
    Reserved(u8),
}

/// The byte that a subtype is written as.
pub open spec fn subtype_byte(s: BinarySubtype) -> u8 {
    match s {
        BinarySubtype::Generic => 0x00,
        BinarySubtype::Function => 0x01,
        BinarySubtype::BinaryOld => 0x02,
        BinarySubtype::UuidOld => 0x03,
        BinarySubtype::Uuid => 0x04,
        BinarySubtype::Md5 => 0x05,
        BinarySubtype::Encrypted => 0x06,
        BinarySubtype::Column => 0x07,
        BinarySubtype::UserDefined(b) => b,
        BinarySubtype::Reserved(b) => b,
    }
}

/// A subtype is canonical when it is the one that its own byte reads back as.
pub open spec fn subtype_of_byte(b: u8) -> BinarySubtype {
    if b == 0x00 {
        BinarySubtype::Generic
    } else if b == 0x01 {
        BinarySubtype::Function
    } else if b == 0x02 {
        BinarySubtype::BinaryOld
    } else if b == 0x03 {
        BinarySubtype::UuidOld
    } else if b == 0x04 {
        BinarySubtype::Uuid
    } else if b == 0x05 {
        BinarySubtype::Md5
    } else if b == 0x06 {
        BinarySubtype::Encrypted
    } else if b == 0x07 {
        BinarySubtype::Column
    } else if b >= 0x80 {
        BinarySubtype::UserDefined(b)
    } else {
        BinarySubtype::Reserved(b)
    }
}

impl BinarySubtype {
    /// Reads a subtype from its byte.
    pub fn from_byte(b: u8) -> (r: BinarySubtype)
        ensures
            r == subtype_of_byte(b),
            subtype_byte(r) == b,
    {
        match b {
            0x00 => BinarySubtype::Generic,
            0x01 => BinarySubtype::Function,
            0x02 => BinarySubtype::BinaryOld,
            0x03 => BinarySubtype::UuidOld,
            0x04 => BinarySubtype::Uuid,
            0x05 => BinarySubtype::Md5,
            0x06 => BinarySubtype::Encrypted,
            0x07 => BinarySubtype::Column,
            _ => {
                if b >= 0x80 {
                    BinarySubtype::UserDefined(b)
                } else {
                    BinarySubtype::Reserved(b)
                }
            },
        }
    }

    /// The byte this subtype is written as.
    pub fn to_byte(&self) -> (r: u8)
        ensures
            r == subtype_byte(*self),
    {
        match *self {
            BinarySubtype::Generic => 0x00,
            BinarySubtype::Function => 0x01,
            BinarySubtype::BinaryOld => 0x02,
            BinarySubtype::UuidOld => 0x03,
            BinarySubtype::Uuid => 0x04,
            BinarySubtype::Md5 => 0x05,
            BinarySubtype::Encrypted => 0x06,
            BinarySubtype::Column => 0x07,
            BinarySubtype::UserDefined(b) => b,
            BinarySubtype::Reserved(b) => b,
        }
    }
}

/// The kind of an element, as its type tag names it.
#[derive(Debug, Clone, Copy, PartialEq, Eq, Structural)]
pub enum ElementType {
    Double,
    String,
    EmbeddedDocument,
    Array,
    Binary,
    Undefined,
    ObjectId,
    Boolean,
    DateTime,
    Null,
    RegularExpression,
    DbPointer,
    JavaScriptCode,
    Symbol,
    JavaScriptCodeWithScope,
    Int32,
    Timestamp,
    Int64,
    Decimal128,
    MaxKey,
    MinKey,
}

/// The type tag byte of each kind.
pub open spec fn type_tag(t: ElementType) -> u8 {
    match t {
        ElementType::Double => 0x01,
        ElementType::String => 0x02,
        ElementType::EmbeddedDocument => 0x03,
        ElementType::Array => 0x04,
        ElementType::Binary => 0x05,
        ElementType::Undefined => 0x06,
        ElementType::ObjectId => 0x07,
        ElementType::Boolean => 0x08,
        ElementType::DateTime => 0x09,
        ElementType::Null => 0x0A,
        ElementType::RegularExpression => 0x0B,
        ElementType::DbPointer => 0x0C,
        ElementType::JavaScriptCode => 0x0D,
        ElementType::Symbol => 0x0E,
        ElementType::JavaScriptCodeWithScope => 0x0F,
        ElementType::Int32 => 0x10,
        ElementType::Timestamp => 0x11,
        ElementType::Int64 => 0x12,
        ElementType::Decimal128 => 0x13,
        ElementType::MaxKey => 0x7F,
        ElementType::MinKey => 0xFF,
    }
}

/// A byte is a known type tag.
pub open spec fn known_tag(b: u8) -> bool {
    (0x01 <= b <= 0x13) || b == 0x7F || b == 0xFF
}

impl ElementType {
    /// The kind that a type tag names, if any.
    pub fn from_tag(b: u8) -> (r: Option<ElementType>)
        ensures
            r is Some <==> known_tag(b),
            r matches Some(t) ==> type_tag(t) == b,
    {
        match b {
            0x01 => Some(ElementType::Double),
            0x02 => Some(ElementType::String),
            0x03 => Some(ElementType::EmbeddedDocument),
            0x04 => Some(ElementType::Array),
            0x05 => Some(ElementType::Binary),
            0x06 => Some(ElementType::Undefined),
            0x07 => Some(ElementType::ObjectId),
            0x08 => Some(ElementType::Boolean),
            0x09 => Some(ElementType::DateTime),
            0x0A => Some(ElementType::Null),
            0x0B => Some(ElementType::RegularExpression),
            0x0C => Some(ElementType::DbPointer),
            0x0D => Some(ElementType::JavaScriptCode),
            0x0E => Some(ElementType::Symbol),
            0x0F => Some(ElementType::JavaScriptCodeWithScope),
            0x10 => Some(ElementType::Int32),
            0x11 => Some(ElementType::Timestamp),
            0x12 => Some(ElementType::Int64),
            0x13 => Some(ElementType::Decimal128),
            0x7F => Some(ElementType::MaxKey),
            0xFF => Some(ElementType::MinKey),
            _ => None,
        }
    }

    /// The type tag byte of this kind.
    pub fn tag(&self) -> (r: u8)
        ensures
            r == type_tag(*self),
    {
        match *self {
            ElementType::Double => 0x01,
            ElementType::String => 0x02,
            ElementType::EmbeddedDocument => 0x03,
            ElementType::Array => 0x04,
            ElementType::Binary => 0x05,
            ElementType::Undefined => 0x06,
            ElementType::ObjectId => 0x07,
            ElementType::Boolean => 0x08,
            ElementType::DateTime => 0x09,
            ElementType::Null => 0x0A,
            ElementType::RegularExpression => 0x0B,
            ElementType::DbPointer => 0x0C,
            ElementType::JavaScriptCode => 0x0D,
            ElementType::Symbol => 0x0E,
            ElementType::JavaScriptCodeWithScope => 0x0F,
            ElementType::Int32 => 0x10,
            ElementType::Timestamp => 0x11,
            ElementType::Int64 => 0x12,
            ElementType::Decimal128 => 0x13,
            ElementType::MaxKey => 0x7F,
            ElementType::MinKey => 0xFF,
        }
    }
}

} // verus!
