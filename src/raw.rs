//! Borrowed, lazily validated views over document bytes.
use vstd::prelude::*;
use vstd::string::StringSliceAdditionalSpecFns;
use vstd::utf8::valid_utf8;

use vstd::slice::slice_subrange;

use crate::codec::{
    bytes_eq, cstr_end, cstring_bytes, i32_bytes, i64_bytes, le_i32, lemma_i32_bytes_of_read, lemma_i64_bytes_of_read, lemma_string_len_prefix,
    lemma_u32_bytes_at, lemma_u64_bytes_of_read, read_cstring, read_i32, read_i64, read_string,
    read_u32, read_u64, string_bytes, string_len_at, string_ok, u32_bytes, u64_bytes, write_bytes,
    write_cstring, write_i32, write_i64, write_string, write_u32, write_u64,
};
use crate::types::{read_bytes12, read_bytes16};
use crate::spec::{subtype_byte, subtype_of_byte, type_tag, BinarySubtype, ElementType};
use crate::types::{DateTime, Decimal128, ObjectId, Timestamp};

verus! {

/// The smallest document: a length and the terminating nul.
pub const MIN_DOCUMENT_SIZE: usize = 5;

/// Document bytes: a length that counts every byte, and a final nul.
pub open spec fn doc_ok(b: Seq<u8>) -> bool {
    &&& b.len() >= 5
    &&& b.len() <= i32::MAX
    &&& le_i32(b, 0) == b.len()
    &&& b[b.len() - 1] == 0
}

/// A borrowed document: its bytes are checked for length and terminator only.
#[derive(Clone, Copy)]
pub struct RawDocument<'a> {
    data: &'a [u8],
}

/// A borrowed array: a document whose keys are read as positions.
#[derive(Clone, Copy)]
pub struct RawArray<'a> {
    doc: RawDocument<'a>,
}

/// A borrowed binary value.
#[derive(Clone, Copy)]
pub struct RawBinaryRef<'a> {
    pub subtype: BinarySubtype,
    pub bytes: &'a [u8],
}

/// A borrowed regular expression.
#[derive(Clone, Copy)]
pub struct RawRegexRef<'a> {
    pub pattern: &'a str,
    pub options: &'a str,
}

/// Borrowed code with the scope it runs in.
#[derive(Clone, Copy)]
pub struct RawJavaScriptCodeWithScopeRef<'a> {
    pub code: &'a str,
    pub scope: RawDocument<'a>,
}

/// A borrowed database pointer.
#[derive(Clone, Copy)]
pub struct RawDbPointerRef<'a> {
    pub namespace: &'a str,
    pub id: ObjectId,
}

/// One value borrowed from document bytes. A double is held as its IEEE-754 bits.
#[derive(Clone, Copy)]
pub enum RawBsonRef<'a> {
    Double(u64),
    String(&'a str),
    Array(RawArray<'a>),
    Document(RawDocument<'a>),
    Boolean(bool),
    Null,
    RegularExpression(RawRegexRef<'a>),
    JavaScriptCode(&'a str),
    JavaScriptCodeWithScope(RawJavaScriptCodeWithScopeRef<'a>),
    Int32(i32),
    Int64(i64),
    Timestamp(Timestamp),
    Binary(RawBinaryRef<'a>),
    ObjectId(ObjectId),
    DateTime(DateTime),
    Symbol(&'a str),
    Decimal128(Decimal128),
    Undefined,
    MaxKey,
    MinKey,
    DbPointer(RawDbPointerRef<'a>),
}

impl<'a> RawDocument<'a> {
    pub closed spec fn bytes(&self) -> Seq<u8> {
        self.data@
    }

    #[verifier::type_invariant]
    closed spec fn inv(&self) -> bool {
        doc_ok(self.data@)
    }
}

impl<'a> RawArray<'a> {
    pub closed spec fn bytes(&self) -> Seq<u8> {
        self.doc.bytes()
    }
}

/// The text of a C-string holds no nul.
pub open spec fn no_nul(s: Seq<u8>) -> bool {
    forall|k: int| 0 <= k < s.len() ==> s[k] != 0
}

/// The logical length written before a binary payload.
pub open spec fn binary_len(b: RawBinaryRef) -> int {
    if b.subtype == BinarySubtype::BinaryOld {
        b.bytes@.len() + 4int
    } else {
        b.bytes@.len() as int
    }
}

/// The bytes of a binary payload: length, subtype, the legacy inner length, the bytes.
pub open spec fn binary_payload(b: RawBinaryRef) -> Seq<u8> {
    i32_bytes(binary_len(b) as i32) + seq![subtype_byte(b.subtype)] + (if b.subtype
        == BinarySubtype::BinaryOld {
        i32_bytes(b.bytes@.len() as i32)
    } else {
        Seq::empty()
    }) + b.bytes@
}

/// The declared length of code with scope: its own four bytes, the code string, the scope.
pub open spec fn code_with_scope_len(code: Seq<u8>, scope: Seq<u8>) -> int {
    4int + string_bytes(code).len() + scope.len()
}

/// The kind of a value.
pub open spec fn kind_of(v: RawBsonRef) -> ElementType {
    match v {
        RawBsonRef::Double(_) => ElementType::Double,
        RawBsonRef::String(_) => ElementType::String,
        RawBsonRef::Array(_) => ElementType::Array,
        RawBsonRef::Document(_) => ElementType::EmbeddedDocument,
        RawBsonRef::Boolean(_) => ElementType::Boolean,
        RawBsonRef::Null => ElementType::Null,
        RawBsonRef::RegularExpression(_) => ElementType::RegularExpression,
        RawBsonRef::JavaScriptCode(_) => ElementType::JavaScriptCode,
        RawBsonRef::JavaScriptCodeWithScope(_) => ElementType::JavaScriptCodeWithScope,
        RawBsonRef::Int32(_) => ElementType::Int32,
        RawBsonRef::Int64(_) => ElementType::Int64,
        RawBsonRef::Timestamp(_) => ElementType::Timestamp,
        RawBsonRef::Binary(_) => ElementType::Binary,
        RawBsonRef::ObjectId(_) => ElementType::ObjectId,
        RawBsonRef::DateTime(_) => ElementType::DateTime,
        RawBsonRef::Symbol(_) => ElementType::Symbol,
        RawBsonRef::Decimal128(_) => ElementType::Decimal128,
        RawBsonRef::Undefined => ElementType::Undefined,
        RawBsonRef::MaxKey => ElementType::MaxKey,
        RawBsonRef::MinKey => ElementType::MinKey,
        RawBsonRef::DbPointer(_) => ElementType::DbPointer,
    }
}

/// The bytes that a value is written as after its tag and key.
pub open spec fn raw_payload(v: RawBsonRef) -> Seq<u8> {
    match v {
        RawBsonRef::Double(bits) => u64_bytes(bits),
        RawBsonRef::String(s) => string_bytes(s.spec_bytes()),
        RawBsonRef::Array(a) => a.bytes(),
        RawBsonRef::Document(d) => d.bytes(),
        RawBsonRef::Boolean(b) => seq![if b { 1u8 } else { 0u8 }],
        RawBsonRef::Null => Seq::empty(),
        RawBsonRef::RegularExpression(re) => cstring_bytes(re.pattern.spec_bytes())
            + cstring_bytes(re.options.spec_bytes()),
        RawBsonRef::JavaScriptCode(s) => string_bytes(s.spec_bytes()),
        RawBsonRef::JavaScriptCodeWithScope(c) => i32_bytes(
            code_with_scope_len(c.code.spec_bytes(), c.scope.bytes()) as i32,
        ) + string_bytes(c.code.spec_bytes()) + c.scope.bytes(),
        RawBsonRef::Int32(i) => i32_bytes(i),
        RawBsonRef::Int64(i) => i64_bytes(i),
        RawBsonRef::Timestamp(t) => u32_bytes(t.increment) + u32_bytes(t.time),
        RawBsonRef::Binary(b) => binary_payload(b),
        RawBsonRef::ObjectId(o) => o.bytes@,
        RawBsonRef::DateTime(d) => i64_bytes(d.millis),
        RawBsonRef::Symbol(s) => string_bytes(s.spec_bytes()),
        RawBsonRef::Decimal128(d) => d.bytes@,
        RawBsonRef::Undefined => Seq::empty(),
        RawBsonRef::MaxKey => Seq::empty(),
        RawBsonRef::MinKey => Seq::empty(),
        RawBsonRef::DbPointer(p) => string_bytes(p.namespace.spec_bytes()) + p.id.bytes@,
    }
}

/// A value can be written: its strings fit a length prefix, its C-strings hold no nul.
pub open spec fn raw_writable(v: RawBsonRef) -> bool {
    match v {
        RawBsonRef::String(s) => s.spec_bytes().len() + 1 <= i32::MAX,
        RawBsonRef::JavaScriptCode(s) => s.spec_bytes().len() + 1 <= i32::MAX,
        RawBsonRef::Symbol(s) => s.spec_bytes().len() + 1 <= i32::MAX,
        RawBsonRef::RegularExpression(re) => no_nul(re.pattern.spec_bytes()) && no_nul(
            re.options.spec_bytes(),
        ),
        RawBsonRef::JavaScriptCodeWithScope(c) => code_with_scope_len(
            c.code.spec_bytes(),
            c.scope.bytes(),
        ) <= i32::MAX,
        RawBsonRef::Binary(b) => binary_len(b) <= i32::MAX,
        RawBsonRef::DbPointer(p) => p.namespace.spec_bytes().len() + 1 <= i32::MAX,
        _ => true,
    }
}

impl<'a> RawDocument<'a> {
    /// The document's bytes.
    pub fn as_bytes(&self) -> (r: &'a [u8])
        ensures
            r@ == self.bytes(),
            doc_ok(r@),
    {
        proof {
            use_type_invariant(self);
        }
        self.data
    }

    /// True when the document holds no element.
    pub fn is_empty(&self) -> (r: bool)
        ensures
            r == (self.bytes().len() == MIN_DOCUMENT_SIZE),
    {
        proof {
            use_type_invariant(self);
        }
        self.data.len() == MIN_DOCUMENT_SIZE
    }
}

impl<'a> RawArray<'a> {
    /// The array's bytes.
    pub fn as_bytes(&self) -> (r: &'a [u8])
        ensures
            r@ == self.bytes(),
            doc_ok(r@),
    {
        self.doc.as_bytes()
    }

    /// True when the array holds no element.
    pub fn is_empty(&self) -> (r: bool)
        ensures
            r == (self.bytes().len() == MIN_DOCUMENT_SIZE),
    {
        self.doc.is_empty()
    }
}

impl<'a> RawBinaryRef<'a> {
    /// Appends the payload: length, subtype, the legacy inner length, the bytes.
    pub fn append_to_payload(&self, dest: &mut Vec<u8>)
        requires
            binary_len(*self) <= i32::MAX,
        ensures
            final(dest)@ == old(dest)@ + binary_payload(*self),
    {
        let len = self.len();
        write_i32(dest, len);
        dest.push(self.subtype.to_byte());
        if self.subtype == BinarySubtype::BinaryOld {
            write_i32(dest, len - 4);
        }
        write_bytes(dest, self.bytes);
        assert(final(dest)@ =~= old(dest)@ + binary_payload(*self));
    }

    /// The length written before the payload.
    pub fn len(&self) -> (r: i32)
        requires
            binary_len(*self) <= i32::MAX,
        ensures
            r == binary_len(*self),
    {
        if self.subtype == BinarySubtype::BinaryOld {
            (self.bytes.len() + 4) as i32
        } else {
            self.bytes.len() as i32
        }
    }
}

impl<'a> RawBsonRef<'a> {
    /// The kind of this value.
    pub fn element_type(&self) -> (r: ElementType)
        ensures
            r == kind_of(*self),
    {
        match *self {
            RawBsonRef::Double(..) => ElementType::Double,
            RawBsonRef::String(..) => ElementType::String,
            RawBsonRef::Array(..) => ElementType::Array,
            RawBsonRef::Document(..) => ElementType::EmbeddedDocument,
            RawBsonRef::Boolean(..) => ElementType::Boolean,
            RawBsonRef::Null => ElementType::Null,
            RawBsonRef::RegularExpression(..) => ElementType::RegularExpression,
            RawBsonRef::JavaScriptCode(..) => ElementType::JavaScriptCode,
            RawBsonRef::JavaScriptCodeWithScope(..) => ElementType::JavaScriptCodeWithScope,
            RawBsonRef::Int32(..) => ElementType::Int32,
            RawBsonRef::Int64(..) => ElementType::Int64,
            RawBsonRef::Timestamp(..) => ElementType::Timestamp,
            RawBsonRef::Binary(..) => ElementType::Binary,
            RawBsonRef::ObjectId(..) => ElementType::ObjectId,
            RawBsonRef::DateTime(..) => ElementType::DateTime,
            RawBsonRef::Symbol(..) => ElementType::Symbol,
            RawBsonRef::Decimal128(..) => ElementType::Decimal128,
            RawBsonRef::Undefined => ElementType::Undefined,
            RawBsonRef::MaxKey => ElementType::MaxKey,
            RawBsonRef::MinKey => ElementType::MinKey,
            RawBsonRef::DbPointer(..) => ElementType::DbPointer,
        }
    }

    /// Appends the bytes of this value, as they stand after its tag and key.
    pub fn append_to(self, dest: &mut Vec<u8>)
        requires
            raw_writable(self),
        ensures
            final(dest)@ == old(dest)@ + raw_payload(self),
    {
        match self {
            RawBsonRef::Int32(v) => write_i32(dest, v),
            RawBsonRef::Int64(v) => write_i64(dest, v),
            RawBsonRef::Double(bits) => write_u64(dest, bits),
            RawBsonRef::Binary(b) => b.append_to_payload(dest),
            RawBsonRef::String(s) => write_string(dest, s),
            RawBsonRef::Array(a) => write_bytes(dest, a.as_bytes()),
            RawBsonRef::Document(d) => write_bytes(dest, d.as_bytes()),
            RawBsonRef::Boolean(b) => dest.push(if b { 1u8 } else { 0u8 }),
            RawBsonRef::RegularExpression(re) => {
                write_cstring(dest, re.pattern);
                write_cstring(dest, re.options);
                assert(final(dest)@ =~= old(dest)@ + raw_payload(self));
            },
            RawBsonRef::JavaScriptCode(s) => write_string(dest, s),
            RawBsonRef::JavaScriptCodeWithScope(c) => {
                let scope = c.scope.as_bytes();
                let code = c.code.as_bytes();
                let len = (4 + 4 + code.len() + 1 + scope.len()) as i32;
                write_i32(dest, len);
                write_string(dest, c.code);
                write_bytes(dest, scope);
                assert(final(dest)@ =~= old(dest)@ + raw_payload(self));
            },
            RawBsonRef::Timestamp(t) => {
                write_u32(dest, t.increment);
                write_u32(dest, t.time);
                assert(final(dest)@ =~= old(dest)@ + raw_payload(self));
            },
            RawBsonRef::ObjectId(o) => write_bytes(dest, o.bytes.as_slice()),
            RawBsonRef::DateTime(d) => write_i64(dest, d.millis),
            RawBsonRef::Symbol(s) => write_string(dest, s),
            RawBsonRef::Decimal128(d) => write_bytes(dest, d.bytes.as_slice()),
            RawBsonRef::DbPointer(p) => {
                write_string(dest, p.namespace);
                write_bytes(dest, p.id.bytes.as_slice());
                assert(final(dest)@ =~= old(dest)@ + raw_payload(self));
            },
            RawBsonRef::Null | RawBsonRef::Undefined | RawBsonRef::MinKey | RawBsonRef::MaxKey => {
                assert(final(dest)@ =~= old(dest)@ + raw_payload(self));
            },
        }
    }
}

/// Why document bytes were refused.
#[derive(Debug, Clone, Copy, PartialEq, Eq, Structural)]
pub enum RawError {
    /// Fewer bytes than the smallest document, or a declared length below it.
    SizeTooSmall,
    /// The declared length differs from the number of bytes.
    LengthMismatch,
    /// The last byte is not a nul.
    MissingTerminator,
    /// The element at this offset is malformed: an unknown tag, a key without
    /// its nul, invalid UTF-8, or a payload that does not fit.
    MalformedElement { offset: usize },
}

/// The error that document bytes are refused with, where they are.
pub open spec fn doc_error(b: Seq<u8>) -> RawError {
    if b.len() < 5 || le_i32(b, 0) < 5 {
        RawError::SizeTooSmall
    } else if le_i32(b, 0) != b.len() {
        RawError::LengthMismatch
    } else {
        RawError::MissingTerminator
    }
}

impl<'a> RawDocument<'a> {
    /// Wraps document bytes, checking only the declared length and the final nul.
    pub fn from_bytes(data: &'a [u8]) -> (r: Result<RawDocument<'a>, RawError>)
        ensures
            r is Ok <==> doc_ok(data@),
            r matches Ok(d) ==> d.bytes() == data@,
            r matches Err(e) ==> e == doc_error(data@),
    {
        if data.len() < MIN_DOCUMENT_SIZE {
            return Err(RawError::SizeTooSmall);
        }
        let n = read_i32(data, 0).unwrap();
        if n < 5 {
            return Err(RawError::SizeTooSmall);
        }
        if n as usize != data.len() {
            return Err(RawError::LengthMismatch);
        }
        if data[data.len() - 1] != 0 {
            return Err(RawError::MissingTerminator);
        }
        Ok(RawDocument { data })
    }
}

/// The end of the first C-string at `start`, if it has a nul and is UTF-8.
pub open spec fn cstr_at(b: Seq<u8>, start: int) -> Option<int> {
    if exists|e: int| cstr_end(b, start, e) && valid_utf8(b.subrange(start, e)) {
        Some(choose|e: int| cstr_end(b, start, e) && valid_utf8(b.subrange(start, e)))
    } else {
        None
    }
}

/// The byte length of a fixed-width payload.
pub open spec fn fixed_width(tag: u8) -> Option<int> {
    if tag == 0x01 || tag == 0x09 || tag == 0x11 || tag == 0x12 {
        Some(8)
    } else if tag == 0x10 {
        Some(4)
    } else if tag == 0x07 {
        Some(12)
    } else if tag == 0x13 {
        Some(16)
    } else if tag == 0x06 || tag == 0x0A || tag == 0x7F || tag == 0xFF {
        Some(0)
    } else {
        None
    }
}

/// A nested document of declared length starts at `start` and fits.
pub open spec fn nested_doc_ok(b: Seq<u8>, start: int) -> bool {
    0 <= start && start + 4 <= b.len() && le_i32(b, start) >= 5 && start + le_i32(b, start)
        <= b.len() && doc_ok(b.subrange(start, start + le_i32(b, start)))
}

/// Where a well-formed payload of kind `tag` that starts at `start` ends.
pub open spec fn value_span(b: Seq<u8>, tag: u8, start: int) -> Option<int> {
    if start < 0 || start > b.len() {
        None
    } else if fixed_width(tag) is Some {
        let n = fixed_width(tag)->0;
        if start + n <= b.len() {
            Some(start + n)
        } else {
            None
        }
    } else if tag == 0x08 {
        if start + 1 <= b.len() && b[start] <= 1 {
            Some(start + 1)
        } else {
            None
        }
    } else if tag == 0x02 || tag == 0x0D || tag == 0x0E {
        if string_ok(b, start) {
            Some(start + 4 + string_len_at(b, start))
        } else {
            None
        }
    } else if tag == 0x03 || tag == 0x04 {
        if nested_doc_ok(b, start) {
            Some(start + le_i32(b, start))
        } else {
            None
        }
    } else if tag == 0x05 {
        let n = le_i32(b, start) as int;
        if start + 5 <= b.len() && n >= 0 && start + 5 + n <= b.len() && (b[start + 4] == 2
            ==> n >= 4 && le_i32(b, start + 5) == n - 4) {
            Some(start + 5 + n)
        } else {
            None
        }
    } else if tag == 0x0B {
        match cstr_at(b, start) {
            Some(e1) => match cstr_at(b, e1 + 1) {
                Some(e2) => Some(e2 + 1),
                None => None,
            },
            None => None,
        }
    } else if tag == 0x0C {
        if string_ok(b, start) && start + 4 + string_len_at(b, start) + 12 <= b.len() {
            Some(start + 4 + string_len_at(b, start) + 12)
        } else {
            None
        }
    } else if tag == 0x0F {
        let n = le_i32(b, start) as int;
        let code_end = start + 4 + 4 + string_len_at(b, start + 4);
        if start + 4 <= b.len() && start + n <= b.len() && string_ok(b, start + 4)
            && nested_doc_ok(b, code_end) && code_end + le_i32(b, code_end) == start + n {
            Some(start + n)
        } else {
            None
        }
    } else {
        None
    }
}

/// `v` is the value that the bytes `[start, next)` of kind `tag` hold.
pub open spec fn decodes_to(b: Seq<u8>, tag: u8, start: int, next: int, v: RawBsonRef) -> bool {
    &&& 0 <= start <= next <= b.len()
    &&& type_tag(kind_of(v)) == tag
    &&& raw_payload(v) == b.subrange(start, next)
    &&& raw_writable(v)
    &&& raw_canonical(v)
}

/// A binary subtype is the one that its own byte reads back as.
pub open spec fn raw_canonical(v: RawBsonRef) -> bool {
    v matches RawBsonRef::Binary(b) ==> b.subtype == subtype_of_byte(subtype_byte(b.subtype))
}

proof fn lemma_cstr_unique(b: Seq<u8>, start: int, e1: int, e2: int)
    requires
        cstr_end(b, start, e1),
        cstr_end(b, start, e2),
    ensures
        e1 == e2,
{
    if e1 < e2 {
        assert(b[e1] != 0);
    } else if e2 < e1 {
        assert(b[e2] != 0);
    }
}

fn nested_doc(buf: &[u8], start: usize, end: usize) -> (r: RawDocument)
    requires
        start <= end <= buf@.len(),
        doc_ok(buf@.subrange(start as int, end as int)),
    ensures
        r.bytes() == buf@.subrange(start as int, end as int),
{
    RawDocument { data: slice_subrange(buf, start, end) }
}

/// Reads the C-string at `start`, as `cstr_at` says.
fn read_cstr_at<'a>(buf: &'a [u8], start: usize) -> (r: Option<(&'a str, usize)>)
    ensures
        match r {
            Some((s, next)) => cstr_at(buf@, start as int) == Some(next - 1) && s.spec_bytes()
                == buf@.subrange(start as int, next - 1),
            None => cstr_at(buf@, start as int) is None,
        },
{
    match read_cstring(buf, start) {
        Some((s, next)) => {
            proof {
                let e = next - 1;
                assert(cstr_end(buf@, start as int, e) && valid_utf8(buf@.subrange(start as int, e)));
                let c = choose|e2: int|
                    cstr_end(buf@, start as int, e2) && valid_utf8(buf@.subrange(start as int, e2));
                lemma_cstr_unique(buf@, start as int, e, c);
            }
            Some((s, next))
        },
        None => None,
    }
}

fn read_fixed<'a>(buf: &'a [u8], tag: u8, start: usize) -> (r: Option<(RawBsonRef<'a>, usize)>)
    requires
        tag == 0x01 || tag == 0x09 || tag == 0x11 || tag == 0x12 || tag == 0x10 || tag == 0x07 || tag
            == 0x13 || tag == 0x06 || tag == 0x0A || tag == 0x7F || tag == 0xFF || tag == 0x08,
        start <= buf@.len(),
    ensures
        r is Some <==> value_span(buf@, tag, start as int) is Some,
        r matches Some((v, next)) ==> value_span(buf@, tag, start as int) == Some(next as int)
            && decodes_to(buf@, tag, start as int, next as int, v),
{
    let b = Ghost(buf@);
    let rest = buf.len() - start;
    if tag == 0x01 || tag == 0x09 || tag == 0x11 || tag == 0x12 {
        if rest < 8 {
            return None;
        }
        proof {
            lemma_u64_bytes_of_read(b@, start as int);
            lemma_i64_bytes_of_read(b@, start as int);
            lemma_u32_bytes_at(b@, start as int);
            lemma_u32_bytes_at(b@, start + 4);
            assert(b@.subrange(start as int, start + 8) =~= b@.subrange(start as int, start + 4)
                + b@.subrange(start + 4, start + 8));
        }
        let v = if tag == 0x01 {
            RawBsonRef::Double(read_u64(buf, start).unwrap())
        } else if tag == 0x09 {
            RawBsonRef::DateTime(DateTime { millis: read_i64(buf, start).unwrap() })
        } else if tag == 0x11 {
            RawBsonRef::Timestamp(
                Timestamp {
                    increment: read_u32(buf, start).unwrap(),
                    time: read_u32(buf, start + 4).unwrap(),
                },
            )
        } else {
            RawBsonRef::Int64(read_i64(buf, start).unwrap())
        };
        Some((v, start + 8))
    } else if tag == 0x10 {
        if rest < 4 {
            return None;
        }
        proof {
            lemma_i32_bytes_of_read(b@, start as int);
        }
        Some((RawBsonRef::Int32(read_i32(buf, start).unwrap()), start + 4))
    } else if tag == 0x07 {
        if rest < 12 {
            return None;
        }
        Some((RawBsonRef::ObjectId(ObjectId { bytes: read_bytes12(buf, start) }), start + 12))
    } else if tag == 0x13 {
        if rest < 16 {
            return None;
        }
        Some((RawBsonRef::Decimal128(Decimal128 { bytes: read_bytes16(buf, start) }), start + 16))
    } else if tag == 0x06 || tag == 0x0A || tag == 0x7F || tag == 0xFF {
        let v = if tag == 0x06 {
            RawBsonRef::Undefined
        } else if tag == 0x0A {
            RawBsonRef::Null
        } else if tag == 0x7F {
            RawBsonRef::MaxKey
        } else {
            RawBsonRef::MinKey
        };
        assert(b@.subrange(start as int, start as int) =~= Seq::<u8>::empty());
        Some((v, start))
    } else {
        if rest < 1 || buf[start] > 1 {
            return None;
        }
        assert(b@.subrange(start as int, start + 1) =~= seq![b@[start as int]]);
        Some((RawBsonRef::Boolean(buf[start] == 1), start + 1))
}
}

fn read_text<'a>(buf: &'a [u8], tag: u8, start: usize) -> (r: Option<(RawBsonRef<'a>, usize)>)
    requires
        tag == 0x02 || tag == 0x0D || tag == 0x0E,
        start <= buf@.len(),
    ensures
        r is Some <==> value_span(buf@, tag, start as int) is Some,
        r matches Some((v, next)) ==> value_span(buf@, tag, start as int) == Some(next as int)
            && decodes_to(buf@, tag, start as int, next as int, v),
{
    let b = Ghost(buf@);
    let rest = buf.len() - start;
        match read_string(buf, start) {
        Some((s, next)) => {
            proof {
                lemma_string_len_prefix(s.spec_bytes());
            }
            let v = if tag == 0x02 {
                RawBsonRef::String(s)
            } else if tag == 0x0D {
                RawBsonRef::JavaScriptCode(s)
            } else {
                RawBsonRef::Symbol(s)
            };
            Some((v, next))
        },
        None => None,
    }
}

fn read_nested<'a>(buf: &'a [u8], tag: u8, start: usize) -> (r: Option<(RawBsonRef<'a>, usize)>)
    requires
        tag == 0x03 || tag == 0x04,
        start <= buf@.len(),
    ensures
        r is Some <==> value_span(buf@, tag, start as int) is Some,
        r matches Some((v, next)) ==> value_span(buf@, tag, start as int) == Some(next as int)
            && decodes_to(buf@, tag, start as int, next as int, v),
{
    let b = Ghost(buf@);
    let rest = buf.len() - start;
        if rest < 4 {
        return None;
    }
    let n = read_i32(buf, start).unwrap();
    if n < 5 || (n as usize) > rest {
        return None;
    }
    let end = start + n as usize;
    if buf[end - 1] != 0 {
        return None;
    }
    proof {
        let sub = b@.subrange(start as int, end as int);
        assert(le_i32(sub, 0) == le_i32(b@, start as int));
    }
    let d = nested_doc(buf, start, end);
    let v = if tag == 0x03 {
        RawBsonRef::Document(d)
    } else {
        RawBsonRef::Array(RawArray { doc: d })
    };
    Some((v, end))
}

fn read_binary<'a>(buf: &'a [u8], tag: u8, start: usize) -> (r: Option<(RawBsonRef<'a>, usize)>)
    requires
        tag == 0x05,
        start <= buf@.len(),
    ensures
        r is Some <==> value_span(buf@, tag, start as int) is Some,
        r matches Some((v, next)) ==> value_span(buf@, tag, start as int) == Some(next as int)
            && decodes_to(buf@, tag, start as int, next as int, v),
{
    let b = Ghost(buf@);
    let rest = buf.len() - start;
        if rest < 5 {
        return None;
    }
    let n = read_i32(buf, start).unwrap();
    if n < 0 || (n as usize) > rest - 5 {
        return None;
    }
    let sub = buf[start + 4];
    let subtype = BinarySubtype::from_byte(sub);
    let end = start + 5 + n as usize;
    let data_start = if sub == 2 {
        if n < 4 {
            return None;
        }
        let inner = read_i32(buf, start + 5).unwrap();
        if inner != n - 4 {
            return None;
        }
        start + 9
    } else {
        start + 5
    };
    let bytes = slice_subrange(buf, data_start, end);
    let bin = RawBinaryRef { subtype, bytes };
    proof {
        lemma_i32_bytes_of_read(b@, start as int);
        if sub == 2 {
            lemma_i32_bytes_of_read(b@, start + 5);
        }
        assert(binary_len(bin) == n);
        assert(b@.subrange(start as int, end as int) =~= binary_payload(bin));
    }
    Some((RawBsonRef::Binary(bin), end))
}

fn read_regex<'a>(buf: &'a [u8], tag: u8, start: usize) -> (r: Option<(RawBsonRef<'a>, usize)>)
    requires
        tag == 0x0B,
        start <= buf@.len(),
    ensures
        r is Some <==> value_span(buf@, tag, start as int) is Some,
        r matches Some((v, next)) ==> value_span(buf@, tag, start as int) == Some(next as int)
            && decodes_to(buf@, tag, start as int, next as int, v),
{
    let b = Ghost(buf@);
    let rest = buf.len() - start;
        match read_cstr_at(buf, start) {
        Some((pattern, e1)) => match read_cstr_at(buf, e1) {
            Some((options, e2)) => {
                let re = RawRegexRef { pattern, options };
                assert(b@.subrange(start as int, e2 as int) =~= raw_payload(
                    RawBsonRef::RegularExpression(re),
                ));
                Some((RawBsonRef::RegularExpression(re), e2))
            },
            None => None,
        },
        None => None,
    }
}

fn read_db_pointer<'a>(buf: &'a [u8], tag: u8, start: usize) -> (r: Option<(RawBsonRef<'a>, usize)>)
    requires
        tag == 0x0C,
        start <= buf@.len(),
    ensures
        r is Some <==> value_span(buf@, tag, start as int) is Some,
        r matches Some((v, next)) ==> value_span(buf@, tag, start as int) == Some(next as int)
            && decodes_to(buf@, tag, start as int, next as int, v),
{
    let b = Ghost(buf@);
    let rest = buf.len() - start;
        match read_string(buf, start) {
        Some((ns, next)) => {
            if buf.len() - next < 12 {
                return None;
            }
            let id = ObjectId { bytes: read_bytes12(buf, next) };
            let p = RawDbPointerRef { namespace: ns, id };
            proof {
                lemma_string_len_prefix(ns.spec_bytes());
            }
            assert(b@.subrange(start as int, next + 12) =~= raw_payload(
                RawBsonRef::DbPointer(p),
            ));
            Some((RawBsonRef::DbPointer(p), next + 12))
        },
        None => None,
    }
}

fn read_code_with_scope<'a>(buf: &'a [u8], tag: u8, start: usize) -> (r: Option<(RawBsonRef<'a>, usize)>)
    requires
        tag == 0x0F,
        start <= buf@.len(),
    ensures
        r is Some <==> value_span(buf@, tag, start as int) is Some,
        r matches Some((v, next)) ==> value_span(buf@, tag, start as int) == Some(next as int)
            && decodes_to(buf@, tag, start as int, next as int, v),
{
    let b = Ghost(buf@);
    let rest = buf.len() - start;
        if rest < 4 {
        return None;
    }
    let n = read_i32(buf, start).unwrap();
    if n < 0 || (n as usize) > rest {
        return None;
    }
    let end = start + n as usize;
    let (code, code_end) = match read_string(buf, start + 4) {
        Some(x) => x,
        None => return None,
    };
    if code_end > end || end - code_end < 4 {
        return None;
    }
    let d = read_i32(buf, code_end).unwrap();
    if d < 5 || d as usize != end - code_end {
        return None;
    }
    if buf[end - 1] != 0 {
        return None;
    }
    proof {
        let sub = b@.subrange(code_end as int, end as int);
        assert(le_i32(sub, 0) == le_i32(b@, code_end as int));
    }
    let scope = nested_doc(buf, code_end, end);
    let c = RawJavaScriptCodeWithScopeRef { code, scope };
    proof {
        lemma_string_len_prefix(code.spec_bytes());
        lemma_i32_bytes_of_read(b@, start as int);
        assert(code_with_scope_len(code.spec_bytes(), scope.bytes()) == n);
        assert(b@.subrange(start as int, end as int) =~= raw_payload(
            RawBsonRef::JavaScriptCodeWithScope(c),
        ));
    }
    Some((RawBsonRef::JavaScriptCodeWithScope(c), end))
}

/// Reads the payload of kind `tag` at `start`: the value and where it ends.
pub fn read_value<'a>(buf: &'a [u8], tag: u8, start: usize) -> (r: Option<(RawBsonRef<'a>, usize)>)
    ensures
        r is Some <==> value_span(buf@, tag, start as int) is Some,
        r matches Some((v, next)) ==> value_span(buf@, tag, start as int) == Some(next as int)
            && decodes_to(buf@, tag, start as int, next as int, v),
{
    if start > buf.len() {
        return None;
    }
    if tag == 0x01 || tag == 0x09 || tag == 0x11 || tag == 0x12 || tag == 0x10 || tag == 0x07
        || tag == 0x13 || tag == 0x06 || tag == 0x0A || tag == 0x7F || tag == 0xFF || tag == 0x08 {
        read_fixed(buf, tag, start)
    } else if tag == 0x02 || tag == 0x0D || tag == 0x0E {
        read_text(buf, tag, start)
    } else if tag == 0x03 || tag == 0x04 {
        read_nested(buf, tag, start)
    } else if tag == 0x05 {
        read_binary(buf, tag, start)
    } else if tag == 0x0B {
        read_regex(buf, tag, start)
    } else if tag == 0x0C {
        read_db_pointer(buf, tag, start)
    } else if tag == 0x0F {
        read_code_with_scope(buf, tag, start)
    } else {
        None
    }
}

/// The element at `pos` of document bytes: the end of its key and where it ends.
pub open spec fn element_at(b: Seq<u8>, pos: int) -> Option<(int, int)> {
    if 4 <= pos && pos + 1 < b.len() {
        match cstr_at(b, pos + 1) {
            Some(e) => match value_span(b, b[pos], e + 1) {
                Some(next) => if next <= b.len() - 1 {
                    Some((e, next))
                } else {
                    None
                },
                None => None,
            },
            None => None,
        }
    } else {
        None
    }
}

/// The element at `pos` has key `key`, value `v`, and ends at `next`.
pub open spec fn element_holds(b: Seq<u8>, pos: int, key: Seq<u8>, v: RawBsonRef, next: int) -> bool {
    &&& element_at(b, pos) == Some((key.len() + pos + 1, next))
    &&& key == b.subrange(pos + 1, pos + 1 + key.len())
    &&& decodes_to(b, b[pos], pos + 2 + key.len(), next, v)
}

/// The element at `p` holds the value `v`.
pub open spec fn value_at(b: Seq<u8>, p: int, v: RawBsonRef) -> bool {
    match element_at(b, p) {
        Some((e, next)) => decodes_to(b, b[p], e + 1, next, v),
        None => false,
    }
}

/// Walks the elements from `pos` for the first one with key `key`: `None` where a
/// malformed element comes first, `Some(None)` where the document ends first.
pub open spec fn find_key(b: Seq<u8>, pos: int, key: Seq<u8>) -> Option<Option<int>>
    decreases b.len() - pos,
{
    if pos < 4 || pos + 1 >= b.len() {
        Some(None)
    } else {
        match element_at(b, pos) {
            None => None,
            Some((e, next)) => if b.subrange(pos + 1, e) == key {
                Some(Some(pos))
            } else if next <= pos {
                None
            } else {
                find_key(b, next, key)
            },
        }
    }
}

/// Walks the elements from `pos` for the one `n` places on, as `find_key` does.
pub open spec fn find_index(b: Seq<u8>, pos: int, n: nat) -> Option<Option<int>>
    decreases b.len() - pos,
{
    if pos < 4 || pos + 1 >= b.len() {
        Some(None)
    } else {
        match element_at(b, pos) {
            None => None,
            Some((e, next)) => if n == 0 {
                Some(Some(pos))
            } else if next <= pos {
                None
            } else {
                find_index(b, next, (n - 1) as nat)
            },
        }
    }
}

/// One element of a document: its key, its value, and where the next one starts.
#[derive(Clone, Copy)]
pub struct RawElement<'a> {
    pub key: &'a str,
    pub value: RawBsonRef<'a>,
    pub next: usize,
}

impl<'a> RawDocument<'a> {
    /// Reads the element at `pos`; `None` at the terminating nul.
    pub fn element_at(&self, pos: usize) -> (r: Result<Option<RawElement<'a>>, RawError>)
        requires
            4 <= pos < self.bytes().len(),
        ensures
            pos + 1 == self.bytes().len() <==> r matches Ok(None),
            pos + 1 < self.bytes().len() ==> (r is Ok <==> element_at(self.bytes(), pos as int) is Some),
            r matches Ok(Some(el)) ==> element_holds(self.bytes(), pos as int, el.key.spec_bytes(), el.value, el.next as int),
            r matches Err(e) ==> e == (RawError::MalformedElement { offset: pos }),
    {
        proof {
            use_type_invariant(self);
        }
        let buf = self.data;
        if pos + 1 == buf.len() {
            return Ok(None);
        }
        let tag = buf[pos];
        let (key, key_next) = match read_cstr_at(buf, pos + 1) {
            Some(x) => x,
            None => return Err(RawError::MalformedElement { offset: pos }),
        };
        let (value, next) = match read_value(buf, tag, key_next) {
            Some(x) => x,
            None => return Err(RawError::MalformedElement { offset: pos }),
        };
        if next > buf.len() - 1 {
            return Err(RawError::MalformedElement { offset: pos });
        }
        Ok(Some(RawElement { key, value, next }))
    }

    /// The value of the first element with key `key`: O(n), no index is built.
    pub fn get(&self, key: &str) -> (r: Result<Option<RawBsonRef<'a>>, RawError>)
        ensures
            r is Err <==> find_key(self.bytes(), 4, key.spec_bytes()) is None,
            r matches Ok(None) ==> find_key(self.bytes(), 4, key.spec_bytes()) == Some(None::<int>),
            r matches Ok(Some(v)) ==> (find_key(self.bytes(), 4, key.spec_bytes()) matches Some(
                Some(p),
            ) && value_at(self.bytes(), p, v)),
    {
        proof {
            use_type_invariant(self);
        }
        let kb = key.as_bytes();
        let mut pos: usize = 4;
        while pos + 1 < self.data.len()
            invariant
                4 <= pos < self.bytes().len(),
                doc_ok(self.bytes()),
                kb@ == key.spec_bytes(),
                find_key(self.bytes(), pos as int, kb@) == find_key(self.bytes(), 4, kb@),
            decreases self.bytes().len() - pos,
        {
            match self.element_at(pos) {
                Err(e) => return Err(e),
                Ok(None) => return Ok(None),
                Ok(Some(el)) => {
                    if bytes_eq(el.key.as_bytes(), kb) {
                        return Ok(Some(el.value));
                    }
                    pos = el.next;
                },
            }
        }
        Ok(None)
    }

    /// The value of the element `index` places from the start.
    pub fn get_at(&self, index: usize) -> (r: Result<Option<RawBsonRef<'a>>, RawError>)
        ensures
            r is Err <==> find_index(self.bytes(), 4, index as nat) is None,
            r matches Ok(None) ==> find_index(self.bytes(), 4, index as nat) == Some(None::<int>),
            r matches Ok(Some(v)) ==> (find_index(self.bytes(), 4, index as nat) matches Some(
                Some(p),
            ) && value_at(self.bytes(), p, v)),
    {
        proof {
            use_type_invariant(self);
        }
        let mut pos: usize = 4;
        let mut n: usize = index;
        while pos + 1 < self.data.len()
            invariant
                4 <= pos < self.bytes().len(),
                doc_ok(self.bytes()),
                find_index(self.bytes(), pos as int, n as nat) == find_index(self.bytes(), 4, index as nat),
            decreases self.bytes().len() - pos,
        {
            match self.element_at(pos) {
                Err(e) => return Err(e),
                Ok(None) => return Ok(None),
                Ok(Some(el)) => {
                    if n == 0 {
                        return Ok(Some(el.value));
                    }
                    n = n - 1;
                    pos = el.next;
                },
            }
        }
        Ok(None)
    }
}

impl<'a> RawBsonRef<'a> {
    /// The payload, where this value is a `String`.
    pub fn as_str(self) -> (r: Option<&'a str>)
        ensures
            r == (match self {
                RawBsonRef::String(x) => Some(x),
                _ => None,
            }),
    {
        match self {
            RawBsonRef::String(x) => Some(x),
            _ => None,
        }
    }

    /// The payload, where this value is a `Array`.
    pub fn as_array(self) -> (r: Option<RawArray<'a>>)
        ensures
            r == (match self {
                RawBsonRef::Array(x) => Some(x),
                _ => None,
            }),
    {
        match self {
            RawBsonRef::Array(x) => Some(x),
            _ => None,
        }
    }

    /// The payload, where this value is a `Document`.
    pub fn as_document(self) -> (r: Option<RawDocument<'a>>)
        ensures
            r == (match self {
                RawBsonRef::Document(x) => Some(x),
                _ => None,
            }),
    {
        match self {
            RawBsonRef::Document(x) => Some(x),
            _ => None,
        }
    }

    /// The payload, where this value is a `Boolean`.
    pub fn as_bool(self) -> (r: Option<bool>)
        ensures
            r == (match self {
                RawBsonRef::Boolean(x) => Some(x),
                _ => None,
            }),
    {
        match self {
            RawBsonRef::Boolean(x) => Some(x),
            _ => None,
        }
    }

    /// The payload, where this value is a `Int32`.
    pub fn as_i32(self) -> (r: Option<i32>)
        ensures
            r == (match self {
                RawBsonRef::Int32(x) => Some(x),
                _ => None,
            }),
    {
        match self {
            RawBsonRef::Int32(x) => Some(x),
            _ => None,
        }
    }

    /// The payload, where this value is a `Int64`.
    pub fn as_i64(self) -> (r: Option<i64>)
        ensures
            r == (match self {
                RawBsonRef::Int64(x) => Some(x),
                _ => None,
            }),
    {
        match self {
            RawBsonRef::Int64(x) => Some(x),
            _ => None,
        }
    }

    /// The payload, where this value is a `ObjectId`.
    pub fn as_object_id(self) -> (r: Option<ObjectId>)
        ensures
            r == (match self {
                RawBsonRef::ObjectId(x) => Some(x),
                _ => None,
            }),
    {
        match self {
            RawBsonRef::ObjectId(x) => Some(x),
            _ => None,
        }
    }

    /// The payload, where this value is a `Binary`.
    pub fn as_binary(self) -> (r: Option<RawBinaryRef<'a>>)
        ensures
            r == (match self {
                RawBsonRef::Binary(x) => Some(x),
                _ => None,
            }),
    {
        match self {
            RawBsonRef::Binary(x) => Some(x),
            _ => None,
        }
    }

    /// The payload, where this value is a `RegularExpression`.
    pub fn as_regex(self) -> (r: Option<RawRegexRef<'a>>)
        ensures
            r == (match self {
                RawBsonRef::RegularExpression(x) => Some(x),
                _ => None,
            }),
    {
        match self {
            RawBsonRef::RegularExpression(x) => Some(x),
            _ => None,
        }
    }

    /// The payload, where this value is a `DateTime`.
    pub fn as_datetime(self) -> (r: Option<DateTime>)
        ensures
            r == (match self {
                RawBsonRef::DateTime(x) => Some(x),
                _ => None,
            }),
    {
        match self {
            RawBsonRef::DateTime(x) => Some(x),
            _ => None,
        }
    }

    /// The payload, where this value is a `Symbol`.
    pub fn as_symbol(self) -> (r: Option<&'a str>)
        ensures
            r == (match self {
                RawBsonRef::Symbol(x) => Some(x),
                _ => None,
            }),
    {
        match self {
            RawBsonRef::Symbol(x) => Some(x),
            _ => None,
        }
    }

    /// The payload, where this value is a `Timestamp`.
    pub fn as_timestamp(self) -> (r: Option<Timestamp>)
        ensures
            r == (match self {
                RawBsonRef::Timestamp(x) => Some(x),
                _ => None,
            }),
    {
        match self {
            RawBsonRef::Timestamp(x) => Some(x),
            _ => None,
        }
    }

    /// The payload, where this value is a `DbPointer`.
    pub fn as_db_pointer(self) -> (r: Option<RawDbPointerRef<'a>>)
        ensures
            r == (match self {
                RawBsonRef::DbPointer(x) => Some(x),
                _ => None,
            }),
    {
        match self {
            RawBsonRef::DbPointer(x) => Some(x),
            _ => None,
        }
    }

    /// The payload, where this value is a `JavaScriptCode`.
    pub fn as_javascript(self) -> (r: Option<&'a str>)
        ensures
            r == (match self {
                RawBsonRef::JavaScriptCode(x) => Some(x),
                _ => None,
            }),
    {
        match self {
            RawBsonRef::JavaScriptCode(x) => Some(x),
            _ => None,
        }
    }

    /// The payload, where this value is a `JavaScriptCodeWithScope`.
    pub fn as_javascript_with_scope(self) -> (r: Option<RawJavaScriptCodeWithScopeRef<'a>>)
        ensures
            r == (match self {
                RawBsonRef::JavaScriptCodeWithScope(x) => Some(x),
                _ => None,
            }),
    {
        match self {
            RawBsonRef::JavaScriptCodeWithScope(x) => Some(x),
            _ => None,
        }
    }

    /// `Some(())` where this value is a `Null`.
    pub fn as_null(self) -> (r: Option<()>)
        ensures
            r is Some <==> self is Null,
    {
        match self {
            RawBsonRef::Null => Some(()),
            _ => None,
        }
    }
}

impl<'a> RawArray<'a> {
    /// The array read as a document with keys "0", "1", ...
    pub fn as_doc(&self) -> (r: RawDocument<'a>)
        ensures
            r.bytes() == self.bytes(),
    {
        self.doc
    }

    /// Reads array bytes: the same checks as a document's.
    pub fn from_bytes(data: &'a [u8]) -> (r: Result<RawArray<'a>, RawError>)
        ensures
            r is Ok <==> doc_ok(data@),
            r matches Ok(a) ==> a.bytes() == data@,
            r matches Err(e) ==> e == doc_error(data@),
    {
        match RawDocument::from_bytes(data) {
            Ok(doc) => Ok(RawArray { doc }),
            Err(e) => Err(e),
        }
    }
}

} // verus!
