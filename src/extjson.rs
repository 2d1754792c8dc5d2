//! The special keys of extended JSON.
use vstd::prelude::*;
use vstd::string::StringSliceAdditionalSpecFns;
use vstd::utf8::encode_utf8;

use crate::binary::{base64_decoded, Binary};
use crate::codec::{bytes_eq, utf8_str};
use crate::spec::BinarySubtype;
use crate::spec::subtype_of_byte;
use crate::types::{hex_decode, hex_decoded, hex_val, read_bytes12, read_bytes16, DateTime, Decimal128, ObjectId, Timestamp};
use crate::value::{keys_unique, Bson, DbPointer, Document, JavaScriptCodeWithScope, Regex};

verus! {

/// A reserved key that marks a document as an encoded value.
#[derive(Debug, Clone, Copy, PartialEq, Eq, Structural)]
pub enum SpecialKey {
    Oid,
    Symbol,
    NumberInt,
    NumberLong,
    NumberDouble,
    Binary,
    Uuid,
    Code,
    Scope,
    Timestamp,
    RegularExpression,
    DbPointer,
    Date,
    MaxKey,
    MinKey,
    Undefined,
    NumberDecimal,
    NumberDecimalBytes,
}

/// The text of each special key.
pub open spec fn key_text(k: SpecialKey) -> Seq<u8> {
    match k {
        SpecialKey::Oid => seq![36u8, 111u8, 105u8, 100u8],
        SpecialKey::Symbol => seq![36u8, 115u8, 121u8, 109u8, 98u8, 111u8, 108u8],
        SpecialKey::NumberInt => seq![36u8, 110u8, 117u8, 109u8, 98u8, 101u8, 114u8, 73u8, 110u8, 116u8],
        SpecialKey::NumberLong => seq![36u8, 110u8, 117u8, 109u8, 98u8, 101u8, 114u8, 76u8, 111u8, 110u8, 103u8],
        SpecialKey::NumberDouble => seq![36u8, 110u8, 117u8, 109u8, 98u8, 101u8, 114u8, 68u8, 111u8, 117u8, 98u8, 108u8, 101u8],
        SpecialKey::Binary => seq![36u8, 98u8, 105u8, 110u8, 97u8, 114u8, 121u8],
        SpecialKey::Uuid => seq![36u8, 117u8, 117u8, 105u8, 100u8],
        SpecialKey::Code => seq![36u8, 99u8, 111u8, 100u8, 101u8],
        SpecialKey::Scope => seq![36u8, 115u8, 99u8, 111u8, 112u8, 101u8],
        SpecialKey::Timestamp => seq![36u8, 116u8, 105u8, 109u8, 101u8, 115u8, 116u8, 97u8, 109u8, 112u8],
        SpecialKey::RegularExpression => seq![36u8, 114u8, 101u8, 103u8, 117u8, 108u8, 97u8, 114u8, 69u8, 120u8, 112u8, 114u8, 101u8, 115u8, 115u8, 105u8, 111u8, 110u8],
        SpecialKey::DbPointer => seq![36u8, 100u8, 98u8, 80u8, 111u8, 105u8, 110u8, 116u8, 101u8, 114u8],
        SpecialKey::Date => seq![36u8, 100u8, 97u8, 116u8, 101u8],
        SpecialKey::MaxKey => seq![36u8, 109u8, 97u8, 120u8, 75u8, 101u8, 121u8],
        SpecialKey::MinKey => seq![36u8, 109u8, 105u8, 110u8, 75u8, 101u8, 121u8],
        SpecialKey::Undefined => seq![36u8, 117u8, 110u8, 100u8, 101u8, 102u8, 105u8, 110u8, 101u8, 100u8],
        SpecialKey::NumberDecimal => seq![36u8, 110u8, 117u8, 109u8, 98u8, 101u8, 114u8, 68u8, 101u8, 99u8, 105u8, 109u8, 97u8, 108u8],
        SpecialKey::NumberDecimalBytes => seq![36u8, 110u8, 117u8, 109u8, 98u8, 101u8, 114u8, 68u8, 101u8, 99u8, 105u8, 109u8, 97u8, 108u8, 66u8, 121u8, 116u8, 101u8, 115u8],
    }
}

/// The special key whose text is `b`, if any.
pub open spec fn special_of(b: Seq<u8>) -> Option<SpecialKey> {
    if b == key_text(SpecialKey::Oid) {
        Some(SpecialKey::Oid)
    } else if b == key_text(SpecialKey::Symbol) {
        Some(SpecialKey::Symbol)
    } else if b == key_text(SpecialKey::NumberInt) {
        Some(SpecialKey::NumberInt)
    } else if b == key_text(SpecialKey::NumberLong) {
        Some(SpecialKey::NumberLong)
    } else if b == key_text(SpecialKey::NumberDouble) {
        Some(SpecialKey::NumberDouble)
    } else if b == key_text(SpecialKey::Binary) {
        Some(SpecialKey::Binary)
    } else if b == key_text(SpecialKey::Uuid) {
        Some(SpecialKey::Uuid)
    } else if b == key_text(SpecialKey::Code) {
        Some(SpecialKey::Code)
    } else if b == key_text(SpecialKey::Scope) {
        Some(SpecialKey::Scope)
    } else if b == key_text(SpecialKey::Timestamp) {
        Some(SpecialKey::Timestamp)
    } else if b == key_text(SpecialKey::RegularExpression) {
        Some(SpecialKey::RegularExpression)
    } else if b == key_text(SpecialKey::DbPointer) {
        Some(SpecialKey::DbPointer)
    } else if b == key_text(SpecialKey::Date) {
        Some(SpecialKey::Date)
    } else if b == key_text(SpecialKey::MaxKey) {
        Some(SpecialKey::MaxKey)
    } else if b == key_text(SpecialKey::MinKey) {
        Some(SpecialKey::MinKey)
    } else if b == key_text(SpecialKey::Undefined) {
        Some(SpecialKey::Undefined)
    } else if b == key_text(SpecialKey::NumberDecimal) {
        Some(SpecialKey::NumberDecimal)
    } else if b == key_text(SpecialKey::NumberDecimalBytes) {
        Some(SpecialKey::NumberDecimalBytes)
    } else {
        None
    }
}

fn text_is(b: &[u8], k: SpecialKey) -> (r: bool)
    ensures
        r == (b@ == key_text(k)),
{
    match k {
        SpecialKey::Oid => {
            let r = b.len() == 4 && b[0] == 36u8 && b[1] == 111u8 && b[2] == 105u8 && b[3] == 100u8;
            assert(r ==> b@ =~= key_text(k));
            r
        },
        SpecialKey::Symbol => {
            let r = b.len() == 7 && b[0] == 36u8 && b[1] == 115u8 && b[2] == 121u8 && b[3] == 109u8 && b[4] == 98u8 && b[5] == 111u8 && b[6] == 108u8;
            assert(r ==> b@ =~= key_text(k));
            r
        },
        SpecialKey::NumberInt => {
            let r = b.len() == 10 && b[0] == 36u8 && b[1] == 110u8 && b[2] == 117u8 && b[3] == 109u8 && b[4] == 98u8 && b[5] == 101u8 && b[6] == 114u8 && b[7] == 73u8 && b[8] == 110u8 && b[9] == 116u8;
            assert(r ==> b@ =~= key_text(k));
            r
        },
        SpecialKey::NumberLong => {
            let r = b.len() == 11 && b[0] == 36u8 && b[1] == 110u8 && b[2] == 117u8 && b[3] == 109u8 && b[4] == 98u8 && b[5] == 101u8 && b[6] == 114u8 && b[7] == 76u8 && b[8] == 111u8 && b[9] == 110u8 && b[10] == 103u8;
            assert(r ==> b@ =~= key_text(k));
            r
        },
        SpecialKey::NumberDouble => {
            let r = b.len() == 13 && b[0] == 36u8 && b[1] == 110u8 && b[2] == 117u8 && b[3] == 109u8 && b[4] == 98u8 && b[5] == 101u8 && b[6] == 114u8 && b[7] == 68u8 && b[8] == 111u8 && b[9] == 117u8 && b[10] == 98u8 && b[11] == 108u8 && b[12] == 101u8;
            assert(r ==> b@ =~= key_text(k));
            r
        },
        SpecialKey::Binary => {
            let r = b.len() == 7 && b[0] == 36u8 && b[1] == 98u8 && b[2] == 105u8 && b[3] == 110u8 && b[4] == 97u8 && b[5] == 114u8 && b[6] == 121u8;
            assert(r ==> b@ =~= key_text(k));
            r
        },
        SpecialKey::Uuid => {
            let r = b.len() == 5 && b[0] == 36u8 && b[1] == 117u8 && b[2] == 117u8 && b[3] == 105u8 && b[4] == 100u8;
            assert(r ==> b@ =~= key_text(k));
            r
        },
        SpecialKey::Code => {
            let r = b.len() == 5 && b[0] == 36u8 && b[1] == 99u8 && b[2] == 111u8 && b[3] == 100u8 && b[4] == 101u8;
            assert(r ==> b@ =~= key_text(k));
            r
        },
        SpecialKey::Scope => {
            let r = b.len() == 6 && b[0] == 36u8 && b[1] == 115u8 && b[2] == 99u8 && b[3] == 111u8 && b[4] == 112u8 && b[5] == 101u8;
            assert(r ==> b@ =~= key_text(k));
            r
        },
        SpecialKey::Timestamp => {
            let r = b.len() == 10 && b[0] == 36u8 && b[1] == 116u8 && b[2] == 105u8 && b[3] == 109u8 && b[4] == 101u8 && b[5] == 115u8 && b[6] == 116u8 && b[7] == 97u8 && b[8] == 109u8 && b[9] == 112u8;
            assert(r ==> b@ =~= key_text(k));
            r
        },
        SpecialKey::RegularExpression => {
            let r = b.len() == 18 && b[0] == 36u8 && b[1] == 114u8 && b[2] == 101u8 && b[3] == 103u8 && b[4] == 117u8 && b[5] == 108u8 && b[6] == 97u8 && b[7] == 114u8 && b[8] == 69u8 && b[9] == 120u8 && b[10] == 112u8 && b[11] == 114u8 && b[12] == 101u8 && b[13] == 115u8 && b[14] == 115u8 && b[15] == 105u8 && b[16] == 111u8 && b[17] == 110u8;
            assert(r ==> b@ =~= key_text(k));
            r
        },
        SpecialKey::DbPointer => {
            let r = b.len() == 10 && b[0] == 36u8 && b[1] == 100u8 && b[2] == 98u8 && b[3] == 80u8 && b[4] == 111u8 && b[5] == 105u8 && b[6] == 110u8 && b[7] == 116u8 && b[8] == 101u8 && b[9] == 114u8;
            assert(r ==> b@ =~= key_text(k));
            r
        },
        SpecialKey::Date => {
            let r = b.len() == 5 && b[0] == 36u8 && b[1] == 100u8 && b[2] == 97u8 && b[3] == 116u8 && b[4] == 101u8;
            assert(r ==> b@ =~= key_text(k));
            r
        },
        SpecialKey::MaxKey => {
            let r = b.len() == 7 && b[0] == 36u8 && b[1] == 109u8 && b[2] == 97u8 && b[3] == 120u8 && b[4] == 75u8 && b[5] == 101u8 && b[6] == 121u8;
            assert(r ==> b@ =~= key_text(k));
            r
        },
        SpecialKey::MinKey => {
            let r = b.len() == 7 && b[0] == 36u8 && b[1] == 109u8 && b[2] == 105u8 && b[3] == 110u8 && b[4] == 75u8 && b[5] == 101u8 && b[6] == 121u8;
            assert(r ==> b@ =~= key_text(k));
            r
        },
        SpecialKey::Undefined => {
            let r = b.len() == 10 && b[0] == 36u8 && b[1] == 117u8 && b[2] == 110u8 && b[3] == 100u8 && b[4] == 101u8 && b[5] == 102u8 && b[6] == 105u8 && b[7] == 110u8 && b[8] == 101u8 && b[9] == 100u8;
            assert(r ==> b@ =~= key_text(k));
            r
        },
        SpecialKey::NumberDecimal => {
            let r = b.len() == 14 && b[0] == 36u8 && b[1] == 110u8 && b[2] == 117u8 && b[3] == 109u8 && b[4] == 98u8 && b[5] == 101u8 && b[6] == 114u8 && b[7] == 68u8 && b[8] == 101u8 && b[9] == 99u8 && b[10] == 105u8 && b[11] == 109u8 && b[12] == 97u8 && b[13] == 108u8;
            assert(r ==> b@ =~= key_text(k));
            r
        },
        SpecialKey::NumberDecimalBytes => {
            let r = b.len() == 19 && b[0] == 36u8 && b[1] == 110u8 && b[2] == 117u8 && b[3] == 109u8 && b[4] == 98u8 && b[5] == 101u8 && b[6] == 114u8 && b[7] == 68u8 && b[8] == 101u8 && b[9] == 99u8 && b[10] == 105u8 && b[11] == 109u8 && b[12] == 97u8 && b[13] == 108u8 && b[14] == 66u8 && b[15] == 121u8 && b[16] == 116u8 && b[17] == 101u8 && b[18] == 115u8;
            assert(r ==> b@ =~= key_text(k));
            r
        },
    }
}

impl SpecialKey {
    /// Looks a key up in the table of special keys.
    pub fn from_key_bytes(b: &[u8]) -> (r: Option<SpecialKey>)
        ensures
            r == special_of(b@),
    {
        if text_is(b, SpecialKey::Oid) {
            return Some(SpecialKey::Oid);
        }
        if text_is(b, SpecialKey::Symbol) {
            return Some(SpecialKey::Symbol);
        }
        if text_is(b, SpecialKey::NumberInt) {
            return Some(SpecialKey::NumberInt);
        }
        if text_is(b, SpecialKey::NumberLong) {
            return Some(SpecialKey::NumberLong);
        }
        if text_is(b, SpecialKey::NumberDouble) {
            return Some(SpecialKey::NumberDouble);
        }
        if text_is(b, SpecialKey::Binary) {
            return Some(SpecialKey::Binary);
        }
        if text_is(b, SpecialKey::Uuid) {
            return Some(SpecialKey::Uuid);
        }
        if text_is(b, SpecialKey::Code) {
            return Some(SpecialKey::Code);
        }
        if text_is(b, SpecialKey::Scope) {
            return Some(SpecialKey::Scope);
        }
        if text_is(b, SpecialKey::Timestamp) {
            return Some(SpecialKey::Timestamp);
        }
        if text_is(b, SpecialKey::RegularExpression) {
            return Some(SpecialKey::RegularExpression);
        }
        if text_is(b, SpecialKey::DbPointer) {
            return Some(SpecialKey::DbPointer);
        }
        if text_is(b, SpecialKey::Date) {
            return Some(SpecialKey::Date);
        }
        if text_is(b, SpecialKey::MaxKey) {
            return Some(SpecialKey::MaxKey);
        }
        if text_is(b, SpecialKey::MinKey) {
            return Some(SpecialKey::MinKey);
        }
        if text_is(b, SpecialKey::Undefined) {
            return Some(SpecialKey::Undefined);
        }
        if text_is(b, SpecialKey::NumberDecimal) {
            return Some(SpecialKey::NumberDecimal);
        }
        if text_is(b, SpecialKey::NumberDecimalBytes) {
            return Some(SpecialKey::NumberDecimalBytes);
        }
        None
    }
}

pub open spec fn is_digit(c: u8) -> bool {
    48 <= c <= 57
}

/// The value of a run of decimal digits.
pub open spec fn digits_value(s: Seq<u8>) -> int
    decreases s.len(),
{
    if s.len() == 0 {
        0
    } else {
        digits_value(s.drop_last()) * 10 + (s.last() - 48)
    }
}

pub open spec fn all_digits(s: Seq<u8>) -> bool {
    s.len() > 0 && forall|i: int| 0 <= i < s.len() ==> is_digit(s[i])
}

/// The integer that decimal text denotes: an optional sign, then at least one digit.
pub open spec fn decimal_value(s: Seq<u8>) -> Option<int> {
    if s.len() > 0 && s[0] == 45 && all_digits(s.drop_first()) {
        Some(-digits_value(s.drop_first()))
    } else if s.len() > 0 && s[0] == 43 && all_digits(s.drop_first()) {
        Some(digits_value(s.drop_first()))
    } else if all_digits(s) {
        Some(digits_value(s))
    } else {
        None
    }
}

proof fn lemma_digits_grow(s: Seq<u8>, j: int, k: int)
    requires
        0 <= j <= k <= s.len(),
        forall|i: int| 0 <= i < s.len() ==> is_digit(s[i]),
    ensures
        0 <= digits_value(s.subrange(0, j)) <= digits_value(s.subrange(0, k)),
    decreases k - j,
{
    if j < k {
        lemma_digits_grow(s, j, k - 1);
        assert(s.subrange(0, k).drop_last() =~= s.subrange(0, k - 1));
    } else {
        lemma_digits_nonneg(s.subrange(0, j));
    }
}

proof fn lemma_digits_nonneg(s: Seq<u8>)
    requires
        forall|i: int| 0 <= i < s.len() ==> is_digit(s[i]),
    ensures
        digits_value(s) >= 0,
    decreases s.len(),
{
    if s.len() > 0 {
        lemma_digits_nonneg(s.drop_last());
    }
}

/// The value of the digits `s[start..]`, if each byte is a digit and the value is at most `limit`.
fn digits_upto(s: &[u8], start: usize, limit: u64) -> (r: Option<u64>)
    requires
        start <= s@.len(),
        9 <= limit <= 9_223_372_036_854_775_808,
    ensures
        match r {
            Some(v) => all_digits(s@.subrange(start as int, s@.len() as int)) && v == digits_value(
                s@.subrange(start as int, s@.len() as int),
            ) && v <= limit,
            None => !all_digits(s@.subrange(start as int, s@.len() as int)) || digits_value(
                s@.subrange(start as int, s@.len() as int),
            ) > limit,
        },
{
    let ghost t = s@.subrange(start as int, s@.len() as int);
    if start == s.len() {
        return None;
    }
    let mut i: usize = start;
    let mut acc: u64 = 0;
    while i < s.len()
        invariant
            start <= i <= s@.len(),
            t == s@.subrange(start as int, s@.len() as int),
            forall|k: int| start <= k < i ==> is_digit(s@[k]),
            acc == digits_value(s@.subrange(start as int, i as int)),
            acc <= limit,
            9 <= limit <= 9_223_372_036_854_775_808,
        decreases s@.len() - i,
    {
        let c = s[i];
        if c < 48 || c > 57 {
            assert(t[i - start] == c);
            return None;
        }
        let d = (c - 48) as u64;
        assert(s@.subrange(start as int, i + 1).drop_last() =~= s@.subrange(start as int, i as int));
        if acc > (limit - d) / 10 {
            proof {
                assert(forall|k: int| start <= k < i + 1 ==> is_digit(s@[k]));
                let v = digits_value(s@.subrange(start as int, i + 1));
                assert(v == acc * 10 + d);
                assert(acc * 10 + d > limit) by (nonlinear_arith)
                    requires
                        acc > (limit - d) / 10,
                        d <= 9,
                        d <= limit || acc >= 0,
                ;
                if all_digits(t) {
                    assert(t =~= s@.subrange(start as int, s@.len() as int));
                    lemma_digits_grow(t, i + 1 - start, t.len() as int);
                    assert(t.subrange(0, i + 1 - start) =~= s@.subrange(start as int, i + 1));
                    assert(t.subrange(0, t.len() as int) =~= t);
                }
            }
            return None;
        }
        assert(acc * 10 + d <= limit) by (nonlinear_arith)
            requires
                acc <= (limit - d) / 10,
                d <= limit,
        ;
        acc = acc * 10 + d;
        i = i + 1;
    }
    assert(s@.subrange(start as int, i as int) =~= t);
    Some(acc)
}

/// Reads decimal text as a signed 64-bit integer: an optional sign, then digits.
pub fn parse_i64_text(s: &[u8]) -> (r: Option<i64>)
    ensures
        r is Some <==> (decimal_value(s@) matches Some(v) && i64::MIN <= v <= i64::MAX),
        r matches Some(x) ==> decimal_value(s@) == Some(x as int),
{
    if s.len() == 0 {
        return None;
    }
    if s[0] == 45 {
        assert(s@.drop_first() =~= s@.subrange(1, s@.len() as int));
        match digits_upto(s, 1, 9_223_372_036_854_775_808) {
            Some(v) => {
                if v == 9_223_372_036_854_775_808 {
                    Some(i64::MIN)
                } else {
                    Some(-(v as i64))
                }
            },
            None => None,
        }
    } else if s[0] == 43 {
        assert(s@.drop_first() =~= s@.subrange(1, s@.len() as int));
        match digits_upto(s, 1, 9_223_372_036_854_775_807) {
            Some(v) => Some(v as i64),
            None => None,
        }
    } else {
        assert(s@ =~= s@.subrange(0, s@.len() as int));
        match digits_upto(s, 0, 9_223_372_036_854_775_807) {
            Some(v) => Some(v as i64),
            None => None,
        }
    }
}

/// Reads decimal text as a signed 32-bit integer: an optional sign, then digits.
pub fn parse_i32_text(s: &[u8]) -> (r: Option<i32>)
    ensures
        r is Some <==> (decimal_value(s@) matches Some(v) && i32::MIN <= v <= i32::MAX),
        r matches Some(x) ==> decimal_value(s@) == Some(x as int),
{
    match parse_i64_text(s) {
        Some(v) => {
            if v >= i32::MIN as i64 && v <= i32::MAX as i64 {
                Some(v as i32)
            } else {
                None
            }
        },
        None => None,
    }
}

/// How deep documents and arrays may nest before resolution gives up.
pub const MAX_DEPTH: usize = 100;

/// Why a document could not be read as extended JSON.
#[derive(Debug, PartialEq)]
pub enum ExtJsonError {
    /// The value under a special key has the wrong shape or content.
    InvalidValue { key: SpecialKey },
    /// A key that may not stand beside the special key.
    UnknownField { key: String },
    /// A key that the special key needs beside it is absent.
    MissingField { key: SpecialKey },
    /// Documents and arrays nest deeper than `MAX_DEPTH`.
    TooDeep,
}

/// The readers of the text forms that extended JSON leaves to collaborators
/// outside this library: a double's IEEE-754 bits, a decimal's 16 bytes, and a
/// date's milliseconds since the epoch. Each returns `None` for text it refuses.
pub struct TextParsers<F, G, H> {
    pub double: F,
    pub decimal: G,
    pub date: H,
}

impl<F: Fn(&str) -> Option<u64>, G: Fn(&str) -> Option<[u8; 16]>, H: Fn(&str) -> Option<i64>> TextParsers<F, G, H> {
    /// Each reader accepts any text.
    pub open spec fn ready(&self) -> bool {
        &&& forall|t: &str| self.double.requires((t,))
        &&& forall|t: &str| self.decimal.requires((t,))
        &&& forall|t: &str| self.date.requires((t,))
    }

    /// What the double reader makes of `t`.
    pub open spec fn double_result(&self, t: String, r: Result<Bson, ExtJsonError>) -> bool {
        exists|s: &str, o: Option<u64>|
            s@ == t@ && #[trigger] self.double.ensures((s,), o) && r == (match o {
                Some(bits) => Ok::<Bson, ExtJsonError>(Bson::Double(bits)),
                None => Err(ExtJsonError::InvalidValue { key: SpecialKey::NumberDouble }),
            })
    }

    /// What the decimal reader makes of `t`.
    pub open spec fn decimal_result(&self, t: String, r: Result<Bson, ExtJsonError>) -> bool {
        exists|s: &str, o: Option<[u8; 16]>|
            s@ == t@ && #[trigger] self.decimal.ensures((s,), o) && r == (match o {
                Some(bytes) => Ok::<Bson, ExtJsonError>(Bson::Decimal128(Decimal128 { bytes })),
                None => Err(ExtJsonError::InvalidValue { key: SpecialKey::NumberDecimal }),
            })
    }

    /// What the date reader makes of `t`.
    pub open spec fn date_result(&self, t: String, r: Result<Bson, ExtJsonError>) -> bool {
        exists|s: &str, o: Option<i64>|
            s@ == t@ && #[trigger] self.date.ensures((s,), o) && r == (match o {
                Some(millis) => Ok::<Bson, ExtJsonError>(Bson::DateTime(DateTime { millis })),
                None => Err(ExtJsonError::InvalidValue { key: SpecialKey::Date }),
            })
    }
}

/// The bytes of a key.
pub open spec fn key_bytes(k: String) -> Seq<u8> {
    encode_utf8(k@)
}

/// The special key that the first entry names, if any.
pub open spec fn first_special(e: Seq<(String, Bson)>) -> Option<SpecialKey> {
    if e.len() == 0 {
        None
    } else {
        special_of(key_bytes(e[0].0))
    }
}

/// The kind of value that each special key yields.
pub open spec fn yields(k: SpecialKey, v: Bson) -> bool {
    match k {
        SpecialKey::Oid => v is ObjectId,
        SpecialKey::Symbol => v is Symbol,
        SpecialKey::NumberInt => v is Int32,
        SpecialKey::NumberLong => v is Int64,
        SpecialKey::NumberDouble => v is Double,
        SpecialKey::Binary => v is Binary,
        SpecialKey::Uuid => v matches Bson::Binary(b) && b.subtype == BinarySubtype::Uuid && b.bytes@.len() == 16,
        SpecialKey::Code => v is JavaScriptCode || v is JavaScriptCodeWithScope,
        SpecialKey::Scope => v is JavaScriptCodeWithScope,
        SpecialKey::Timestamp => v is Timestamp,
        SpecialKey::RegularExpression => v is RegularExpression,
        SpecialKey::DbPointer => v is DbPointer,
        SpecialKey::Date => v is DateTime,
        SpecialKey::MaxKey => v is MaxKey,
        SpecialKey::MinKey => v is MinKey,
        SpecialKey::Undefined => v is Undefined,
        SpecialKey::NumberDecimal => v is Decimal128,
        SpecialKey::NumberDecimalBytes => v is Decimal128,
    }
}

/// The bits of the IEEE-754 doubles that extended JSON spells as words.
pub open spec fn double_word(s: Seq<u8>) -> Option<u64> {
    if s == seq![73u8, 110u8, 102u8, 105u8, 110u8, 105u8, 116u8, 121u8] {
        Some(0x7FF0_0000_0000_0000)
    } else if s == seq![45u8, 73u8, 110u8, 102u8, 105u8, 110u8, 105u8, 116u8, 121u8] {
        Some(0xFFF0_0000_0000_0000)
    } else if s == seq![78u8, 97u8, 78u8] {
        Some(0x7FF8_0000_0000_0000)
    } else {
        None
    }
}

/// Reads "Infinity", "-Infinity" and "NaN" as the bits of those doubles.
pub fn double_word_bits(s: &[u8]) -> (r: Option<u64>)
    ensures
        r == double_word(s@),
{
    if s.len() == 8 && s[0] == 73 && s[1] == 110 && s[2] == 102 && s[3] == 105 && s[4] == 110
        && s[5] == 105 && s[6] == 116 && s[7] == 121 {
        assert(s@ =~= seq![73u8, 110u8, 102u8, 105u8, 110u8, 105u8, 116u8, 121u8]);
        Some(0x7FF0_0000_0000_0000)
    } else if s.len() == 9 && s[0] == 45 && s[1] == 73 && s[2] == 110 && s[3] == 102 && s[4] == 105
        && s[5] == 110 && s[6] == 105 && s[7] == 116 && s[8] == 121 {
        assert(s@ =~= seq![45u8, 73u8, 110u8, 102u8, 105u8, 110u8, 105u8, 116u8, 121u8]);
        Some(0xFFF0_0000_0000_0000)
    } else if s.len() == 3 && s[0] == 78 && s[1] == 97 && s[2] == 78 {
        assert(s@ =~= seq![78u8, 97u8, 78u8]);
        Some(0x7FF8_0000_0000_0000)
    } else {
        None
    }
}

/// The value of the first entry with key `key`.
pub open spec fn field_value(e: Seq<(String, Bson)>, key: Seq<u8>) -> Option<Bson>
    decreases e.len(),
{
    if e.len() == 0 {
        None
    } else if key_bytes(e[0].0) == key {
        Some(e[0].1)
    } else {
        field_value(e.drop_first(), key)
    }
}

/// The text that a field holds, where it holds a string.
pub open spec fn text_of(v: Option<Bson>) -> Option<String> {
    match v {
        Some(Bson::String(t)) => Some(t),
        _ => None,
    }
}

/// The unsigned 32-bit number that a field holds, where it holds one.
pub open spec fn u32_of(v: Option<Bson>) -> Option<u32> {
    match v {
        Some(Bson::Int32(n)) => if n >= 0 {
            Some(n as u32)
        } else {
            None
        },
        Some(Bson::Int64(n)) => if 0 <= n <= 0xFFFF_FFFF {
            Some(n as u32)
        } else {
            None
        },
        _ => None,
    }
}

/// The position of the first entry with key `key`.
fn find_entry(entries: &Vec<(String, Bson)>, key: &[u8]) -> (r: Option<usize>)
    ensures
        match r {
            Some(i) => i < entries@.len() && key_bytes(entries@[i as int].0) == key@ && field_value(
                entries@,
                key@,
            ) == Some(entries@[i as int].1),
            None => field_value(entries@, key@) is None,
        },
{
    let mut i: usize = 0;
    assert(entries@.subrange(0, entries@.len() as int) =~= entries@);
    while i < entries.len()
        invariant
            0 <= i <= entries@.len(),
            field_value(entries@, key@) == field_value(entries@.subrange(i as int, entries@.len() as int), key@),
        decreases entries@.len() - i,
    {
        let ghost rest = entries@.subrange(i as int, entries@.len() as int);
        assert(rest.drop_first() =~= entries@.subrange(i + 1, entries@.len() as int));
        assert(rest[0] == entries@[i as int]);
        if bytes_eq(entries[i].0.as_str().as_bytes(), key) {
            return Some(i);
        }
        i = i + 1;
    }
    None
}

/// The text under `key`, where the first entry with that key holds a string.
fn text_field(entries: &Vec<(String, Bson)>, key: &[u8]) -> (r: Option<String>)
    ensures
        r == text_of(field_value(entries@, key@)),
{
    match find_entry(entries, key) {
        Some(i) => match &entries[i].1 {
            Bson::String(t) => Some(t.clone()),
            _ => None,
        },
        None => None,
    }
}

/// The unsigned 32-bit number under `key`.
fn u32_field(entries: &Vec<(String, Bson)>, key: &[u8]) -> (r: Option<u32>)
    ensures
        r == u32_of(field_value(entries@, key@)),
{
    match find_entry(entries, key) {
        Some(i) => match &entries[i].1 {
            Bson::Int32(n) => if *n >= 0 {
                Some(*n as u32)
            } else {
                None
            },
            Bson::Int64(n) => if *n >= 0 && *n <= 0xFFFF_FFFF {
                Some(*n as u32)
            } else {
                None
            },
            _ => None,
        },
        None => None,
    }
}

/// Reads `$oid`: 24 hex digits, or the 12 bytes of a generic binary value.
fn resolve_oid(v: Bson) -> (r: Result<Bson, ExtJsonError>)
    ensures
        match v {
            Bson::String(t) => match hex_decoded(key_bytes(t)) {
                Some(b) => if b.len() == 12 {
                    r matches Ok(Bson::ObjectId(o)) && o.bytes@ == b
                } else {
                    r == Err::<Bson, ExtJsonError>(ExtJsonError::InvalidValue { key: SpecialKey::Oid })
                },
                None => r == Err::<Bson, ExtJsonError>(ExtJsonError::InvalidValue { key: SpecialKey::Oid }),
            },
            Bson::Binary(b) => if b.bytes@.len() == 12 && b.subtype == BinarySubtype::Generic {
                r matches Ok(Bson::ObjectId(o)) && o.bytes@ == b.bytes@
            } else {
                r == Err::<Bson, ExtJsonError>(ExtJsonError::InvalidValue { key: SpecialKey::Oid })
            },
            _ => r == Err::<Bson, ExtJsonError>(ExtJsonError::InvalidValue { key: SpecialKey::Oid }),
        },
{
    match v {
        Bson::String(t) => match ObjectId::parse_str(t.as_str()) {
            Ok(o) => Ok(Bson::ObjectId(o)),
            Err(_) => Err(ExtJsonError::InvalidValue { key: SpecialKey::Oid }),
        },
        Bson::Binary(b) => {
            if b.bytes.len() == 12 && b.subtype == BinarySubtype::Generic {
                Ok(Bson::ObjectId(ObjectId { bytes: read_bytes12(b.bytes.as_slice(), 0) }))
            } else {
                Err(ExtJsonError::InvalidValue { key: SpecialKey::Oid })
            }
        },
        _ => Err(ExtJsonError::InvalidValue { key: SpecialKey::Oid }),
    }
}

/// Reads `$numberInt` and `$numberLong`: decimal text in range.
fn resolve_integer(k: SpecialKey, v: Bson) -> (r: Result<Bson, ExtJsonError>)
    requires
        k == SpecialKey::NumberInt || k == SpecialKey::NumberLong,
    ensures
        match v {
            Bson::String(t) => match decimal_value(key_bytes(t)) {
                Some(n) => if k == SpecialKey::NumberInt && i32::MIN <= n <= i32::MAX {
                    r == Ok::<Bson, ExtJsonError>(Bson::Int32(n as i32))
                } else if k == SpecialKey::NumberLong && i64::MIN <= n <= i64::MAX {
                    r == Ok::<Bson, ExtJsonError>(Bson::Int64(n as i64))
                } else {
                    r == Err::<Bson, ExtJsonError>(ExtJsonError::InvalidValue { key: k })
                },
                None => r == Err::<Bson, ExtJsonError>(ExtJsonError::InvalidValue { key: k }),
            },
            _ => r == Err::<Bson, ExtJsonError>(ExtJsonError::InvalidValue { key: k }),
        },
{
    match v {
        Bson::String(t) => {
            let b = t.as_str().as_bytes();
            if k == SpecialKey::NumberInt {
                match parse_i32_text(b) {
                    Some(n) => Ok(Bson::Int32(n)),
                    None => Err(ExtJsonError::InvalidValue { key: k }),
                }
            } else {
                match parse_i64_text(b) {
                    Some(n) => Ok(Bson::Int64(n)),
                    None => Err(ExtJsonError::InvalidValue { key: k }),
                }
            }
        },
        _ => Err(ExtJsonError::InvalidValue { key: k }),
    }
}

/// Reads `$numberDouble`: the words for infinities and NaN, else what the double
/// reader makes of the text.
fn resolve_double<F: Fn(&str) -> Option<u64>, G: Fn(&str) -> Option<[u8; 16]>, H: Fn(&str) -> Option<i64>>(v: Bson, parsers: &TextParsers<F, G, H>) -> (r: Result<Bson, ExtJsonError>)
    requires
        parsers.ready(),
    ensures
        match v {
            Bson::String(t) => match double_word(key_bytes(t)) {
                Some(bits) => r == Ok::<Bson, ExtJsonError>(Bson::Double(bits)),
                None => parsers.double_result(t, r),
            },
            _ => r == Err::<Bson, ExtJsonError>(ExtJsonError::InvalidValue { key: SpecialKey::NumberDouble }),
        },
{
    match v {
        Bson::String(t) => {
            let s = t.as_str();
            match double_word_bits(s.as_bytes()) {
                Some(bits) => Ok(Bson::Double(bits)),
                None => {
                    let o = (parsers.double)(s);
                    let r = match o {
                        Some(bits) => Ok(Bson::Double(bits)),
                        None => Err(ExtJsonError::InvalidValue { key: SpecialKey::NumberDouble }),
                    };
                    assert(parsers.double_result(t, r));
                    r
                },
            }
        },
        _ => Err(ExtJsonError::InvalidValue { key: SpecialKey::NumberDouble }),
    }
}

/// Reads `$numberDecimal`: what the decimal reader makes of the text.
fn resolve_decimal<F: Fn(&str) -> Option<u64>, G: Fn(&str) -> Option<[u8; 16]>, H: Fn(&str) -> Option<i64>>(v: Bson, parsers: &TextParsers<F, G, H>) -> (r: Result<Bson, ExtJsonError>)
    requires
        parsers.ready(),
    ensures
        match v {
            Bson::String(t) => parsers.decimal_result(t, r),
            _ => r == Err::<Bson, ExtJsonError>(ExtJsonError::InvalidValue { key: SpecialKey::NumberDecimal }),
        },
{
    match v {
        Bson::String(t) => {
            let o = (parsers.decimal)(t.as_str());
            let r = match o {
                Some(bytes) => Ok(Bson::Decimal128(Decimal128 { bytes })),
                None => Err(ExtJsonError::InvalidValue { key: SpecialKey::NumberDecimal }),
            };
            assert(parsers.decimal_result(t, r));
            r
        },
        _ => Err(ExtJsonError::InvalidValue { key: SpecialKey::NumberDecimal }),
    }
}


/// What `$binary` makes of its value.
pub open spec fn binary_rule(v: Bson, r: Result<Bson, ExtJsonError>) -> bool {
    match v {
        Bson::Document(d) => match (text_of(field_value(d.entries@, seq![98u8, 97u8, 115u8, 101u8, 54u8, 52u8])), text_of(
            field_value(d.entries@, seq![115u8, 117u8, 98u8, 84u8, 121u8, 112u8, 101u8]),
        )) {
            (Some(t), Some(st)) => match hex_decoded(key_bytes(st)) {
                Some(sb) => if sb.len() == 1 && key_bytes(t).len() + 3 <= usize::MAX
                    && base64_decoded(key_bytes(t)) is Some {
                    r matches Ok(Bson::Binary(b)) && Some(b.bytes@) == base64_decoded(key_bytes(t))
                        && b.subtype == subtype_of_byte(sb[0])
                } else {
                    r == Err::<Bson, ExtJsonError>(ExtJsonError::InvalidValue { key: SpecialKey::Binary })
                },
                None => r == Err::<Bson, ExtJsonError>(ExtJsonError::InvalidValue { key: SpecialKey::Binary }),
            },
            _ => r == Err::<Bson, ExtJsonError>(ExtJsonError::InvalidValue { key: SpecialKey::Binary }),
        },
        _ => r == Err::<Bson, ExtJsonError>(ExtJsonError::InvalidValue { key: SpecialKey::Binary }),
    }
}

/// What `$uuid` makes of its value.
pub open spec fn uuid_rule(v: Bson, r: Result<Bson, ExtJsonError>) -> bool {
    match v {
        Bson::String(t) => {
            let s = key_bytes(t);
            if s.len() == 36 && (forall|i: int| 0 <= i < 36 ==> (s[i] == 45u8 <==> uuid_hyphen(i)))
                && hex_decoded(uuid_digits(s)) is Some {
                r matches Ok(Bson::Binary(b)) && b.subtype == BinarySubtype::Uuid && Some(b.bytes@)
                    == hex_decoded(uuid_digits(s))
            } else {
                r == Err::<Bson, ExtJsonError>(ExtJsonError::InvalidValue { key: SpecialKey::Uuid })
            }
        },
        _ => r == Err::<Bson, ExtJsonError>(ExtJsonError::InvalidValue { key: SpecialKey::Uuid }),
    }
}

/// What `$timestamp` makes of its value.
pub open spec fn timestamp_rule(v: Bson, r: Result<Bson, ExtJsonError>) -> bool {
    match v {
        Bson::Document(d) => match (u32_of(field_value(d.entries@, seq![116u8])), u32_of(
            field_value(d.entries@, seq![105u8]),
        )) {
            (Some(time), Some(increment)) => r == Ok::<Bson, ExtJsonError>(
                Bson::Timestamp(Timestamp { time, increment }),
            ),
            _ => r == Err::<Bson, ExtJsonError>(ExtJsonError::InvalidValue { key: SpecialKey::Timestamp }),
        },
        _ => r == Err::<Bson, ExtJsonError>(ExtJsonError::InvalidValue { key: SpecialKey::Timestamp }),
    }
}

/// What `$regularExpression` makes of its value.
pub open spec fn regex_rule(v: Bson, r: Result<Bson, ExtJsonError>) -> bool {
    match v {
        Bson::Document(d) => match (text_of(field_value(d.entries@, seq![112u8, 97u8, 116u8, 116u8, 101u8, 114u8, 110u8])), text_of(
            field_value(d.entries@, seq![111u8, 112u8, 116u8, 105u8, 111u8, 110u8, 115u8]),
        )) {
            (Some(p), Some(o)) => r matches Ok(Bson::RegularExpression(re)) && re.pattern@ == p@
                && crate::value::chars_sorted(re.options@) && re.options@.to_multiset()
                == o@.to_multiset(),
            _ => r == Err::<Bson, ExtJsonError>(ExtJsonError::InvalidValue { key: SpecialKey::RegularExpression }),
        },
        _ => r == Err::<Bson, ExtJsonError>(ExtJsonError::InvalidValue { key: SpecialKey::RegularExpression }),
    }
}

/// What `$dbPointer` makes of its value.
pub open spec fn db_pointer_rule(v: Bson, r: Result<Bson, ExtJsonError>) -> bool {
    match v {
        Bson::Document(d) => match (text_of(field_value(d.entries@, seq![36u8, 114u8, 101u8, 102u8])), field_value(
            d.entries@,
            seq![36u8, 105u8, 100u8],
        )) {
            (Some(ns), Some(Bson::Document(idd))) => match text_of(field_value(idd.entries@, seq![36u8, 111u8, 105u8, 100u8])) {
                Some(h) => match hex_decoded(key_bytes(h)) {
                    Some(b) => if b.len() == 12 {
                        r matches Ok(Bson::DbPointer(p)) && p.namespace == ns && p.id.bytes@ == b
                    } else {
                        r == Err::<Bson, ExtJsonError>(ExtJsonError::InvalidValue { key: SpecialKey::DbPointer })
                    },
                    None => r == Err::<Bson, ExtJsonError>(ExtJsonError::InvalidValue { key: SpecialKey::DbPointer }),
                },
                None => r == Err::<Bson, ExtJsonError>(ExtJsonError::InvalidValue { key: SpecialKey::DbPointer }),
            },
            _ => r == Err::<Bson, ExtJsonError>(ExtJsonError::InvalidValue { key: SpecialKey::DbPointer }),
        },
        _ => r == Err::<Bson, ExtJsonError>(ExtJsonError::InvalidValue { key: SpecialKey::DbPointer }),
    }
}

/// What `$date` makes of its value.
pub open spec fn date_rule<F: Fn(&str) -> Option<u64>, G: Fn(&str) -> Option<[u8; 16]>, H: Fn(&str) -> Option<i64>>(v: Bson, r: Result<Bson, ExtJsonError>, parsers: TextParsers<F, G, H>) -> bool {
    match v {
        Bson::Int64(n) => r == Ok::<Bson, ExtJsonError>(Bson::DateTime(DateTime { millis: n })),
        Bson::Int32(n) => r == Ok::<Bson, ExtJsonError>(Bson::DateTime(DateTime { millis: n as i64 })),
        Bson::String(t) => parsers.date_result(t, r),
        Bson::Document(d) => match text_of(field_value(d.entries@, seq![36u8, 110u8, 117u8, 109u8, 98u8, 101u8, 114u8, 76u8, 111u8, 110u8, 103u8])) {
            Some(t) => match decimal_value(key_bytes(t)) {
                Some(n) => if i64::MIN <= n <= i64::MAX {
                    r == Ok::<Bson, ExtJsonError>(Bson::DateTime(DateTime { millis: n as i64 }))
                } else {
                    r == Err::<Bson, ExtJsonError>(ExtJsonError::InvalidValue { key: SpecialKey::Date })
                },
                None => r == Err::<Bson, ExtJsonError>(ExtJsonError::InvalidValue { key: SpecialKey::Date }),
            },
            None => r == Err::<Bson, ExtJsonError>(ExtJsonError::InvalidValue { key: SpecialKey::Date }),
        },
        _ => r == Err::<Bson, ExtJsonError>(ExtJsonError::InvalidValue { key: SpecialKey::Date }),
    }
}

/// Whether a byte is a hex digit, either case.
fn is_hex_digit(c: u8) -> (r: bool)
    ensures
        r == (hex_val(c) is Some),
{
    (48 <= c && c <= 57) || (97 <= c && c <= 102) || (65 <= c && c <= 70)
}

/// Reads `$binary`: `{"base64": text, "subType": two hex digits}`.
fn resolve_binary(v: Bson) -> (r: Result<Bson, ExtJsonError>)
    ensures
        binary_rule(v, r),
{
    let d = match v {
        Bson::Document(d) => d,
        _ => return Err(ExtJsonError::InvalidValue { key: SpecialKey::Binary }),
    };
    let t = match text_field(&d.entries, &[98u8, 97u8, 115u8, 101u8, 54u8, 52u8]) {
        Some(t) => t,
        None => return Err(ExtJsonError::InvalidValue { key: SpecialKey::Binary }),
    };
    let st = match text_field(&d.entries, &[115u8, 117u8, 98u8, 84u8, 121u8, 112u8, 101u8]) {
        Some(st) => st,
        None => return Err(ExtJsonError::InvalidValue { key: SpecialKey::Binary }),
    };
    let sb = match hex_decode(st.as_str()) {
        Some(sb) => sb,
        None => return Err(ExtJsonError::InvalidValue { key: SpecialKey::Binary }),
    };
    if sb.len() != 1 {
        return Err(ExtJsonError::InvalidValue { key: SpecialKey::Binary });
    }
    if t.as_str().as_bytes().len() > usize::MAX - 3 {
        return Err(ExtJsonError::InvalidValue { key: SpecialKey::Binary });
    }
    match Binary::from_base64(t.as_str(), Some(BinarySubtype::from_byte(sb[0]))) {
        Ok(b) => {
            Ok(Bson::Binary(b))
        },
        Err(_) => Err(ExtJsonError::InvalidValue { key: SpecialKey::Binary }),
    }
}

/// The positions of the hyphens in a hyphenated UUID.
pub open spec fn uuid_hyphen(i: int) -> bool {
    i == 8 || i == 13 || i == 18 || i == 23
}

/// The hex digits of a hyphenated UUID, hyphens left out.
pub open spec fn uuid_digits(s: Seq<u8>) -> Seq<u8> {
    s.subrange(0, 8) + s.subrange(9, 13) + s.subrange(14, 18) + s.subrange(19, 23) + s.subrange(24, 36)
}

/// Reads `$uuid`: 32 hex digits in the groups 8-4-4-4-12.
fn resolve_uuid(v: Bson) -> (r: Result<Bson, ExtJsonError>)
    ensures
        uuid_rule(v, r),
{
    let t = match v {
        Bson::String(t) => t,
        _ => return Err(ExtJsonError::InvalidValue { key: SpecialKey::Uuid }),
    };
    let s = t.as_str().as_bytes();
    assert(s@ == key_bytes(t));
    if s.len() != 36 {
        return Err(ExtJsonError::InvalidValue { key: SpecialKey::Uuid });
    }
    let mut digits: Vec<u8> = Vec::new();
    let mut i: usize = 0;
    while i < 36
        invariant
            s@.len() == 36,
            0 <= i <= 36,
            s@ == key_bytes(t),
            v == Bson::String(t),
            forall|k: int| 0 <= k < i ==> (s@[k] == 45u8 <==> uuid_hyphen(k)),
            forall|k: int| 0 <= k < digits@.len() ==> hex_val(#[trigger] digits@[k]) is Some,
            digits@ == (if i <= 8 {
                s@.subrange(0, i as int)
            } else if i <= 13 {
                s@.subrange(0, 8) + s@.subrange(9, i as int)
            } else if i <= 18 {
                s@.subrange(0, 8) + s@.subrange(9, 13) + s@.subrange(14, i as int)
            } else if i <= 23 {
                s@.subrange(0, 8) + s@.subrange(9, 13) + s@.subrange(14, 18) + s@.subrange(19, i as int)
            } else {
                s@.subrange(0, 8) + s@.subrange(9, 13) + s@.subrange(14, 18) + s@.subrange(19, 23)
                    + s@.subrange(24, i as int)
            }),
        decreases 36 - i,
    {
        let hyphen = i == 8 || i == 13 || i == 18 || i == 23;
        if (s[i] == 45u8) != hyphen {
            assert(!(s@[i as int] == 45u8 <==> uuid_hyphen(i as int)));
            return Err(ExtJsonError::InvalidValue { key: SpecialKey::Uuid });
        }
        if !hyphen && !is_hex_digit(s[i]) {
            proof {
                let dg = uuid_digits(s@);
                let k: int = if i < 8 {
                    i as int
                } else if i < 13 {
                    i - 1
                } else if i < 18 {
                    i - 2
                } else if i < 23 {
                    i - 3
                } else {
                    i - 4
                };
                assert(dg[k] == s@[i as int]);
                assert(hex_val(dg[k]) is None);
                assert(hex_decoded(dg) is None);
            }
            return Err(ExtJsonError::InvalidValue { key: SpecialKey::Uuid });
        }
        if !hyphen {
            digits.push(s[i]);
        }
        i = i + 1;
        proof {
            if i <= 8 {
                assert(digits@ =~= s@.subrange(0, i as int));
            } else if i <= 13 {
                assert(digits@ =~= s@.subrange(0, 8) + s@.subrange(9, i as int));
            } else if i <= 18 {
                assert(digits@ =~= s@.subrange(0, 8) + s@.subrange(9, 13) + s@.subrange(14, i as int));
            } else if i <= 23 {
                assert(digits@ =~= s@.subrange(0, 8) + s@.subrange(9, 13) + s@.subrange(14, 18)
                    + s@.subrange(19, i as int));
            } else {
                assert(digits@ =~= s@.subrange(0, 8) + s@.subrange(9, 13) + s@.subrange(14, 18)
                    + s@.subrange(19, 23) + s@.subrange(24, i as int));
            }
        }
    }
    assert(digits@ =~= uuid_digits(s@));
    proof {
        let dg = digits@;
        assert(dg.subrange(0, 0) =~= Seq::<u8>::empty());
        assert(vstd::utf8::valid_utf8(Seq::<u8>::empty()));
        assert forall|k: int| 0 <= 0 <= k < dg.len() <= dg.len() implies #[trigger] vstd::utf8::is_leading_byte_width_1(dg[k]) by {
            assert(hex_val(dg[k]) is Some);
        }
        vstd::utf8::partial_valid_utf8_extend_ascii_block(dg, 0, dg.len() as int);
        assert(dg.subrange(0, dg.len() as int) =~= dg);
    }
    let text = match utf8_str(digits.as_slice()) {
        Some(text) => text,
        None => return Err(ExtJsonError::InvalidValue { key: SpecialKey::Uuid }),
    };
    match hex_decode(text) {
        Some(bytes) => {
            if bytes.len() != 16 {
                return Err(ExtJsonError::InvalidValue { key: SpecialKey::Uuid });
            }
            Ok(Bson::Binary(Binary { subtype: BinarySubtype::Uuid, bytes }))
        },
        None => Err(ExtJsonError::InvalidValue { key: SpecialKey::Uuid }),
    }
}

/// Reads `$timestamp`: `{"t": seconds, "i": increment}`, each an unsigned 32-bit number.
fn resolve_timestamp(v: Bson) -> (r: Result<Bson, ExtJsonError>)
    ensures
        timestamp_rule(v, r),
{
    let d = match v {
        Bson::Document(d) => d,
        _ => return Err(ExtJsonError::InvalidValue { key: SpecialKey::Timestamp }),
    };
    let tk: [u8; 1] = [116u8];
    let ik: [u8; 1] = [105u8];
    assert(tk@ =~= seq![116u8]);
    assert(ik@ =~= seq![105u8]);
    let time = match u32_field(&d.entries, tk.as_slice()) {
        Some(t) => t,
        None => return Err(ExtJsonError::InvalidValue { key: SpecialKey::Timestamp }),
    };
    let increment = match u32_field(&d.entries, ik.as_slice()) {
        Some(i) => i,
        None => return Err(ExtJsonError::InvalidValue { key: SpecialKey::Timestamp }),
    };
    Ok(Bson::Timestamp(Timestamp { time, increment }))
}

/// Reads `$regularExpression`: `{"pattern": text, "options": text}`; the options come out sorted.
fn resolve_regex(v: Bson) -> (r: Result<Bson, ExtJsonError>)
    ensures
        regex_rule(v, r),
{
    let d = match v {
        Bson::Document(d) => d,
        _ => return Err(ExtJsonError::InvalidValue { key: SpecialKey::RegularExpression }),
    };
    let p = match text_field(&d.entries, &[112u8, 97u8, 116u8, 116u8, 101u8, 114u8, 110u8]) {
        Some(p) => p,
        None => return Err(ExtJsonError::InvalidValue { key: SpecialKey::RegularExpression }),
    };
    let o = match text_field(&d.entries, &[111u8, 112u8, 116u8, 105u8, 111u8, 110u8, 115u8]) {
        Some(o) => o,
        None => return Err(ExtJsonError::InvalidValue { key: SpecialKey::RegularExpression }),
    };
    let re = Regex::new(p.as_str(), o.as_str());
    Ok(Bson::RegularExpression(re))
}

/// Reads `$dbPointer`: `{"$ref": namespace, "$id": {"$oid": hex}}`.
fn resolve_db_pointer(v: Bson) -> (r: Result<Bson, ExtJsonError>)
    ensures
        db_pointer_rule(v, r),
{
    let d = match v {
        Bson::Document(d) => d,
        _ => return Err(ExtJsonError::InvalidValue { key: SpecialKey::DbPointer }),
    };
    let namespace = match text_field(&d.entries, &[36u8, 114u8, 101u8, 102u8]) {
        Some(n) => n,
        None => return Err(ExtJsonError::InvalidValue { key: SpecialKey::DbPointer }),
    };
    let i = match find_entry(&d.entries, &[36u8, 105u8, 100u8]) {
        Some(i) => i,
        None => return Err(ExtJsonError::InvalidValue { key: SpecialKey::DbPointer }),
    };
    let hex = match &d.entries[i].1 {
        Bson::Document(idd) => match text_field(&idd.entries, &[36u8, 111u8, 105u8, 100u8]) {
            Some(h) => h,
            None => return Err(ExtJsonError::InvalidValue { key: SpecialKey::DbPointer }),
        },
        _ => return Err(ExtJsonError::InvalidValue { key: SpecialKey::DbPointer }),
    };
    match ObjectId::parse_str(hex.as_str()) {
        Ok(id) => Ok(Bson::DbPointer(DbPointer { namespace, id })),
        Err(_) => Err(ExtJsonError::InvalidValue { key: SpecialKey::DbPointer }),
    }
}

/// Reads `$date`: `{"$numberLong": text}` or a number of milliseconds. The
/// ISO-8601 text form needs a calendar, which this library does not hold.
fn resolve_date<F: Fn(&str) -> Option<u64>, G: Fn(&str) -> Option<[u8; 16]>, H: Fn(&str) -> Option<i64>>(v: Bson, parsers: &TextParsers<F, G, H>) -> (r: Result<Bson, ExtJsonError>)
    requires
        parsers.ready(),
    ensures
        date_rule(v, r, *parsers),
{
    match v {
        Bson::Int64(n) => Ok(Bson::DateTime(DateTime { millis: n })),
        Bson::Int32(n) => Ok(Bson::DateTime(DateTime { millis: n as i64 })),
        Bson::String(t) => {
            let o = (parsers.date)(t.as_str());
            let r = match o {
                Some(millis) => Ok(Bson::DateTime(DateTime { millis })),
                None => Err(ExtJsonError::InvalidValue { key: SpecialKey::Date }),
            };
            assert(parsers.date_result(t, r));
            r
        },
        Bson::Document(d) => match text_field(&d.entries, &[36u8, 110u8, 117u8, 109u8, 98u8, 101u8, 114u8, 76u8, 111u8, 110u8, 103u8]) {
            Some(t) => match parse_i64_text(t.as_str().as_bytes()) {
                Some(n) => Ok(Bson::DateTime(DateTime { millis: n })),
                None => Err(ExtJsonError::InvalidValue { key: SpecialKey::Date }),
            },
            None => Err(ExtJsonError::InvalidValue { key: SpecialKey::Date }),
        },
        _ => Err(ExtJsonError::InvalidValue { key: SpecialKey::Date }),
    }
}

/// Reads the markers `$maxKey` and `$minKey`, whose value is 1, and `$undefined`, whose value is true.
fn resolve_marker(k: SpecialKey, v: Bson) -> (r: Result<Bson, ExtJsonError>)
    requires
        k == SpecialKey::MaxKey || k == SpecialKey::MinKey || k == SpecialKey::Undefined,
    ensures
        r == (if k == SpecialKey::Undefined {
            if v == Bson::Boolean(true) {
                Ok::<Bson, ExtJsonError>(Bson::Undefined)
            } else {
                Err(ExtJsonError::InvalidValue { key: k })
            }
        } else if v == Bson::Int32(1) || v == Bson::Int64(1) {
            Ok(if k == SpecialKey::MaxKey {
                Bson::MaxKey
            } else {
                Bson::MinKey
            })
        } else {
            Err(ExtJsonError::InvalidValue { key: k })
        }),
{
    let one = match v {
        Bson::Int32(n) => n == 1,
        Bson::Int64(n) => n == 1,
        _ => false,
    };
    let yes = match v {
        Bson::Boolean(b) => b,
        _ => false,
    };
    if k == SpecialKey::Undefined {
        if yes {
            Ok(Bson::Undefined)
        } else {
            Err(ExtJsonError::InvalidValue { key: k })
        }
    } else if one {
        if k == SpecialKey::MaxKey {
            Ok(Bson::MaxKey)
        } else {
            Ok(Bson::MinKey)
        }
    } else {
        Err(ExtJsonError::InvalidValue { key: k })
    }
}

/// Reads `$numberDecimalBytes`: the 16 bytes of a decimal.
fn resolve_decimal_bytes(v: Bson) -> (r: Result<Bson, ExtJsonError>)
    ensures
        match v {
            Bson::Binary(b) => if b.bytes@.len() == 16 {
                r matches Ok(Bson::Decimal128(d)) && d.bytes@ == b.bytes@
            } else {
                r == Err::<Bson, ExtJsonError>(ExtJsonError::InvalidValue { key: SpecialKey::NumberDecimalBytes })
            },
            _ => r == Err::<Bson, ExtJsonError>(ExtJsonError::InvalidValue { key: SpecialKey::NumberDecimalBytes }),
        },
{
    match v {
        Bson::Binary(b) => {
            if b.bytes.len() == 16 {
                Ok(Bson::Decimal128(Decimal128 { bytes: read_bytes16(b.bytes.as_slice(), 0) }))
            } else {
                Err(ExtJsonError::InvalidValue { key: SpecialKey::NumberDecimalBytes })
            }
        },
        _ => Err(ExtJsonError::InvalidValue { key: SpecialKey::NumberDecimalBytes }),
    }
}

/// The entries carry the same keys, in the same order, and the same values
/// wherever `b` holds no document or array.
pub open spec fn same_keys(a: Seq<(String, Bson)>, b: Seq<(String, Bson)>) -> bool {
    &&& a.len() == b.len()
    &&& forall|i: int| 0 <= i < a.len() ==> a[i].0 == b[i].0
    &&& forall|i: int| 0 <= i < a.len() && !(b[i].1 is Document || b[i].1 is Array) ==> a[i].1 == b[i].1
}

/// Two value trees are equal, documents and arrays compared element by element
/// down to `fuel` levels.
pub open spec fn same_tree(a: Bson, b: Bson, fuel: nat) -> bool
    decreases fuel, 0int,
{
    match a {
        Bson::Document(x) => b matches Bson::Document(y) && fuel > 0 && same_entries(
            x.entries@,
            y.entries@,
            (fuel - 1) as nat,
        ),
        Bson::Array(x) => b matches Bson::Array(y) && fuel > 0 && x@.len() == y@.len() && forall|i: int|
            0 <= i < x@.len() ==> same_tree(#[trigger] x@[i], y@[i], (fuel - 1) as nat),
        _ => a == b,
    }
}

/// Two documents hold the same keys in the same order, with equal values.
pub open spec fn same_entries(x: Seq<(String, Bson)>, y: Seq<(String, Bson)>, fuel: nat) -> bool
    decreases fuel, 1int,
{
    x.len() == y.len() && forall|i: int|
        0 <= i < x.len() ==> x[i].0 == y[i].0 && same_tree(#[trigger] x[i].1, y[i].1, fuel)
}

/// A value whose documents, at every level down to `fuel`, start with an ordinary key.
pub open spec fn plain_value(v: Bson, fuel: nat) -> bool
    decreases fuel, 0int,
{
    match v {
        Bson::Document(d) => fuel > 0 && plain_doc(d.entries@, (fuel - 1) as nat),
        Bson::Array(a) => fuel > 0 && forall|i: int| 0 <= i < a@.len() ==> plain_value(#[trigger] a@[i], (fuel - 1) as nat),
        _ => true,
    }
}

/// A document that starts with an ordinary key and holds only plain values.
pub open spec fn plain_doc(e: Seq<(String, Bson)>, fuel: nat) -> bool
    decreases fuel, 1int,
{
    first_special(e) is None && forall|i: int| 0 <= i < e.len() ==> plain_value(#[trigger] e[i].1, fuel)
}

/// The value under `$scope` is a document that resolves to itself.
pub open spec fn scope_plain(v: Bson, depth: nat) -> bool {
    v matches Bson::Document(sd) && (sd.entries@.len() == 0 || (depth > 0 && plain_doc(
        sd.entries@,
        (depth - 1) as nat,
    )))
}

/// The resolved scope equals the document under `$scope`.
pub open spec fn same_scope(o: Document, v: Bson, depth: nat) -> bool {
    v matches Bson::Document(sd) && same_entries(o.entries@, sd.entries@, (depth - 1) as nat)
}

/// What `$code` and `$scope` make of the entries: code alone, code paired with
/// `$scope` in either order, and the refusals of an unknown or a missing partner.
pub open spec fn code_scope_rule(e: Seq<(String, Bson)>, r: Result<Bson, ExtJsonError>, depth: nat) -> bool {
    match first_special(e) {
        Some(SpecialKey::Code) => match e[0].1 {
            Bson::String(c) => if e.len() == 1 {
                r == Ok::<Bson, ExtJsonError>(Bson::JavaScriptCode(c))
            } else if key_bytes(e[1].0) != key_text(SpecialKey::Scope) {
                r == Err::<Bson, ExtJsonError>(ExtJsonError::UnknownField { key: e[1].0 })
            } else {
                &&& (r matches Ok(Bson::JavaScriptCodeWithScope(cws)) ==> cws.code == c)
                &&& (scope_plain(e[1].1, depth) ==> (r matches Ok(Bson::JavaScriptCodeWithScope(cws))
                    && cws.code == c && same_scope(cws.scope, e[1].1, depth)))
            },
            _ => r == Err::<Bson, ExtJsonError>(ExtJsonError::InvalidValue { key: SpecialKey::Code }),
        },
        Some(SpecialKey::Scope) => {
            &&& (e[0].1 is Document && e.len() >= 2 && key_bytes(e[1].0) == key_text(SpecialKey::Code)
                ==> (r matches Ok(Bson::JavaScriptCodeWithScope(cws)) ==> e[1].1 == Bson::String(cws.code)))
            &&& (scope_plain(e[0].1, depth) ==> if e.len() == 1 {
                r == Err::<Bson, ExtJsonError>(ExtJsonError::MissingField { key: SpecialKey::Code })
            } else if key_bytes(e[1].0) != key_text(SpecialKey::Code) {
                r == Err::<Bson, ExtJsonError>(ExtJsonError::UnknownField { key: e[1].0 })
            } else {
                match e[1].1 {
                    Bson::String(c) => r matches Ok(Bson::JavaScriptCodeWithScope(cws)) && cws.code == c
                        && same_scope(cws.scope, e[0].1, depth),
                    _ => r == Err::<Bson, ExtJsonError>(ExtJsonError::InvalidValue { key: SpecialKey::Code }),
                }
            })
        },
        _ => true,
    }
}

/// What each special key other than `$code` and `$scope` makes of the value under it.
pub open spec fn special_rule<F: Fn(&str) -> Option<u64>, G: Fn(&str) -> Option<[u8; 16]>, H: Fn(&str) -> Option<i64>>(
    k: SpecialKey,
    v: Bson,
    r: Result<Bson, ExtJsonError>,
    parsers: TextParsers<F, G, H>,
) -> bool {
    match k {
        SpecialKey::Symbol => match v {
            Bson::String(t) => r == Ok::<Bson, ExtJsonError>(Bson::Symbol(t)),
            _ => r == Err::<Bson, ExtJsonError>(ExtJsonError::InvalidValue { key: k }),
        },
        SpecialKey::NumberInt => match v {
            Bson::String(t) => match decimal_value(key_bytes(t)) {
                Some(n) => if i32::MIN <= n <= i32::MAX {
                    r == Ok::<Bson, ExtJsonError>(Bson::Int32(n as i32))
                } else {
                    r == Err::<Bson, ExtJsonError>(ExtJsonError::InvalidValue { key: k })
                },
                None => r == Err::<Bson, ExtJsonError>(ExtJsonError::InvalidValue { key: k }),
            },
            _ => r == Err::<Bson, ExtJsonError>(ExtJsonError::InvalidValue { key: k }),
        },
        SpecialKey::NumberLong => match v {
            Bson::String(t) => match decimal_value(key_bytes(t)) {
                Some(n) => if i64::MIN <= n <= i64::MAX {
                    r == Ok::<Bson, ExtJsonError>(Bson::Int64(n as i64))
                } else {
                    r == Err::<Bson, ExtJsonError>(ExtJsonError::InvalidValue { key: k })
                },
                None => r == Err::<Bson, ExtJsonError>(ExtJsonError::InvalidValue { key: k }),
            },
            _ => r == Err::<Bson, ExtJsonError>(ExtJsonError::InvalidValue { key: k }),
        },
        SpecialKey::NumberDouble => match v {
            Bson::String(t) => match double_word(key_bytes(t)) {
                Some(bits) => r == Ok::<Bson, ExtJsonError>(Bson::Double(bits)),
                None => parsers.double_result(t, r),
            },
            _ => r == Err::<Bson, ExtJsonError>(ExtJsonError::InvalidValue { key: k }),
        },
        SpecialKey::Oid => match v {
            Bson::String(t) => match hex_decoded(key_bytes(t)) {
                Some(b) => if b.len() == 12 {
                    r matches Ok(Bson::ObjectId(o)) && o.bytes@ == b
                } else {
                    r == Err::<Bson, ExtJsonError>(ExtJsonError::InvalidValue { key: k })
                },
                None => r == Err::<Bson, ExtJsonError>(ExtJsonError::InvalidValue { key: k }),
            },
            Bson::Binary(b) => if b.bytes@.len() == 12 && b.subtype == BinarySubtype::Generic {
                r matches Ok(Bson::ObjectId(o)) && o.bytes@ == b.bytes@
            } else {
                r == Err::<Bson, ExtJsonError>(ExtJsonError::InvalidValue { key: k })
            },
            _ => r == Err::<Bson, ExtJsonError>(ExtJsonError::InvalidValue { key: k }),
        },
        SpecialKey::MaxKey => r == (if v == Bson::Int32(1) || v == Bson::Int64(1) {
            Ok::<Bson, ExtJsonError>(Bson::MaxKey)
        } else {
            Err::<Bson, ExtJsonError>(ExtJsonError::InvalidValue { key: k })
        }),
        SpecialKey::MinKey => r == (if v == Bson::Int32(1) || v == Bson::Int64(1) {
            Ok::<Bson, ExtJsonError>(Bson::MinKey)
        } else {
            Err::<Bson, ExtJsonError>(ExtJsonError::InvalidValue { key: k })
        }),
        SpecialKey::Undefined => r == (if v == Bson::Boolean(true) {
            Ok::<Bson, ExtJsonError>(Bson::Undefined)
        } else {
            Err::<Bson, ExtJsonError>(ExtJsonError::InvalidValue { key: k })
        }),
        SpecialKey::NumberDecimal => match v {
            Bson::String(t) => parsers.decimal_result(t, r),
            _ => r == Err::<Bson, ExtJsonError>(ExtJsonError::InvalidValue { key: k }),
        },
        SpecialKey::Binary => binary_rule(v, r),
        SpecialKey::Uuid => uuid_rule(v, r),
        SpecialKey::Timestamp => timestamp_rule(v, r),
        SpecialKey::RegularExpression => regex_rule(v, r),
        SpecialKey::DbPointer => db_pointer_rule(v, r),
        SpecialKey::Date => date_rule(v, r, parsers),
        SpecialKey::NumberDecimalBytes => match v {
            Bson::Binary(b) => if b.bytes@.len() == 16 {
                r matches Ok(Bson::Decimal128(d)) && d.bytes@ == b.bytes@
            } else {
                r == Err::<Bson, ExtJsonError>(ExtJsonError::InvalidValue { key: k })
            },
            _ => r == Err::<Bson, ExtJsonError>(ExtJsonError::InvalidValue { key: k }),
        },
        _ => true,
    }
}

/// `scope` is what resolving the document `sd` under `$scope` gives.
pub open spec fn scope_resolved<F: Fn(&str) -> Option<u64>, G: Fn(&str) -> Option<[u8; 16]>, H: Fn(&str) -> Option<i64>>(
    sd: Document,
    scope: Document,
    fuel: nat,
    parsers: TextParsers<F, G, H>,
) -> bool
    decreases fuel, 0int,
{
    if sd.entries@.len() == 0 {
        scope == sd
    } else {
        fuel > 0 && doc_resolved(sd.entries@, Bson::Document(scope), (fuel - 1) as nat, parsers)
    }
}

/// `y` is what resolving `x` gives: documents and arrays are resolved in turn,
/// down to `fuel` levels, and other values stay as they are.
pub open spec fn resolved<F: Fn(&str) -> Option<u64>, G: Fn(&str) -> Option<[u8; 16]>, H: Fn(&str) -> Option<i64>>(x: Bson, y: Bson, fuel: nat, parsers: TextParsers<F, G, H>) -> bool
    decreases fuel, 0int,
{
    match x {
        Bson::Document(d) => fuel > 0 && doc_resolved(d.entries@, y, (fuel - 1) as nat, parsers),
        Bson::Array(a) => y matches Bson::Array(b) && fuel > 0 && a@.len() == b@.len() && forall|i: int|
            0 <= i < a@.len() ==> resolved(#[trigger] a@[i], b@[i], (fuel - 1) as nat, parsers),
        _ => y == x,
    }
}

/// `y` is what resolving a document with entries `e` gives: the value its first key
/// encodes where that key is special, else a document with the same keys whose
/// values are resolved in turn.
pub open spec fn doc_resolved<F: Fn(&str) -> Option<u64>, G: Fn(&str) -> Option<[u8; 16]>, H: Fn(&str) -> Option<i64>>(
    e: Seq<(String, Bson)>,
    y: Bson,
    fuel: nat,
    parsers: TextParsers<F, G, H>,
) -> bool
    decreases fuel, 1int,
{
    match first_special(e) {
        None => y matches Bson::Document(o) && o.entries@.len() == e.len() && forall|i: int|
            0 <= i < e.len() ==> o.entries@[i].0 == e[i].0 && resolved(
                #[trigger] e[i].1,
                o.entries@[i].1,
                fuel,
                parsers,
            ),
        Some(SpecialKey::Code) => match e[0].1 {
            Bson::String(c) => if e.len() == 1 {
                y == Bson::JavaScriptCode(c)
            } else {
                match (y, e[1].1) {
                    (Bson::JavaScriptCodeWithScope(cws), Bson::Document(sd)) => cws.code == c && scope_resolved(
                        sd,
                        cws.scope,
                        fuel,
                        parsers,
                    ),
                    _ => false,
                }
            },
            _ => false,
        },
        Some(SpecialKey::Scope) => e.len() >= 2 && match (y, e[0].1) {
            (Bson::JavaScriptCodeWithScope(cws), Bson::Document(sd)) => e[1].1 == Bson::String(cws.code)
                && scope_resolved(sd, cws.scope, fuel, parsers),
            _ => false,
        },
        Some(k) => special_rule(k, e[0].1, Ok(y), parsers),
    }
}

/// Resolves the special keys inside a value: documents and arrays are walked.
fn resolve_value<F: Fn(&str) -> Option<u64>, G: Fn(&str) -> Option<[u8; 16]>, H: Fn(&str) -> Option<i64>>(v: Bson, depth: usize, parsers: &TextParsers<F, G, H>) -> (r: Result<Bson, ExtJsonError>)
    requires
        parsers.ready(),
    ensures
        !(v is Document || v is Array) ==> r == Ok::<Bson, ExtJsonError>(v),
        v is Array ==> (r matches Ok(x) ==> x is Array),
        plain_value(v, depth as nat) ==> (r matches Ok(o) && same_tree(o, v, depth as nat)),
        r matches Ok(y) ==> resolved(v, y, depth as nat, *parsers),
    decreases depth, 0usize,
{
    match v {
        Bson::Document(d) => {
            if depth == 0 {
                return Err(ExtJsonError::TooDeep);
            }
            resolve_document(d, depth - 1, parsers)
        },
        Bson::Array(a) => {
            if depth == 0 {
                return Err(ExtJsonError::TooDeep);
            }
            let ghost a0 = a@;
            let mut items = a;
            let mut out: Vec<Bson> = Vec::new();
            while items.len() > 0
                invariant
                    parsers.ready(),
                    depth >= 1,
                    v == Bson::Array(a),
                    a0 == a@,
                    out@.len() + items@.len() == a0.len(),
                    items@ == a0.subrange(out@.len() as int, a0.len() as int),
                    plain_value(v, depth as nat) ==> forall|i: int|
                        0 <= i < out@.len() ==> same_tree(#[trigger] out@[i], a0[i], (depth - 1) as nat),
                    forall|i: int| 0 <= i < out@.len() ==> resolved(a0[i], #[trigger] out@[i], (depth - 1) as nat, *parsers),
                decreases items@.len(),
            {
                assert(items@[0] == a0[out@.len() as int]);
                let ghost k = out@.len() as int;
                proof {
                    if plain_value(v, depth as nat) {
                        let fuel = depth as nat;
                        assert(v matches Bson::Array(aa) && aa@ == a0);
                        assert(forall|i: int| 0 <= i < a0.len() ==> plain_value(#[trigger] a0[i], (fuel - 1) as nat));
                        assert(plain_value(a0[k], (depth - 1) as nat));
                    }
                }
                let x = items.remove(0);
                match resolve_value(x, depth - 1, parsers) {
                    Ok(y) => {
                        let ghost gy = y;
                        out.push(y);
                        proof {
                            if plain_value(v, depth as nat) {
                                assert(same_tree(gy, a0[k], (depth - 1) as nat));
                                assert(out@[k] == gy);
                                assert forall|i: int| 0 <= i < out@.len() implies same_tree(#[trigger] out@[i], a0[i], (depth - 1) as nat) by {
                                    if i < k {
                                        assert(out@[i] == out@.drop_last()[i]);
                                    }
                                }
                            }
                        }
                    },
                    Err(e) => return Err(e),
                }
                assert(items@ =~= a0.subrange(out@.len() as int, a0.len() as int));
            }
            Ok(Bson::Array(out))
        },
        other => Ok(other),
    }
}

/// Reads a document as extended JSON: where its first key is special, the value
/// that key encodes; else a plain document whose values are resolved in turn.
fn resolve_document<F: Fn(&str) -> Option<u64>, G: Fn(&str) -> Option<[u8; 16]>, H: Fn(&str) -> Option<i64>>(d: Document, depth: usize, parsers: &TextParsers<F, G, H>) -> (r: Result<Bson, ExtJsonError>)
    requires
        parsers.ready(),
    ensures
        d.entries@.len() == 0 ==> (r matches Ok(Bson::Document(o)) && o.entries@.len() == 0),
        first_special(d.entries@) matches Some(k) ==> (r matches Ok(v) ==> yields(k, v)),
        first_special(d.entries@) is None ==> (r matches Ok(v) ==> (v matches Bson::Document(o)
            && same_keys(o.entries@, d.entries@))),
        keys_unique(d.entries@) && first_special(d.entries@) is None ==> (r matches Ok(Bson::Document(o))
            ==> keys_unique(o.entries@)),
        first_special(d.entries@) matches Some(k) ==> special_rule(k, d.entries@[0].1, r, *parsers),
        code_scope_rule(d.entries@, r, depth as nat),
        r matches Ok(y) ==> doc_resolved(d.entries@, y, depth as nat, *parsers),
        plain_doc(d.entries@, depth as nat) ==> (r matches Ok(Bson::Document(o)) && same_entries(
            o.entries@,
            d.entries@,
            depth as nat,
        )),
    decreases depth, 1usize,
{
    let ghost e0 = d.entries@;
    let mut entries = d.entries;
    if entries.len() == 0 {
        return Ok(Bson::Document(Document { entries }));
    }
    let special = SpecialKey::from_key_bytes(entries[0].0.as_str().as_bytes());
    match special {
        None => {
            let mut out: Vec<(String, Bson)> = Vec::new();
            while entries.len() > 0
                invariant
                    parsers.ready(),
                    e0 == d.entries@,
                    e0.len() > 0,
                    first_special(e0) is None,
                    out@.len() + entries@.len() == e0.len(),
                    entries@ == e0.subrange(out@.len() as int, e0.len() as int),
                    forall|i: int| 0 <= i < out@.len() ==> out@[i].0 == e0[i].0,
                    forall|i: int| 0 <= i < out@.len() && !(e0[i].1 is Document || e0[i].1 is Array) ==> out@[i].1 == e0[i].1,
                    plain_doc(e0, depth as nat) ==> forall|i: int|
                        0 <= i < out@.len() ==> same_tree(#[trigger] out@[i].1, e0[i].1, depth as nat),
                    forall|i: int| 0 <= i < out@.len() ==> resolved(e0[i].1, #[trigger] out@[i].1, depth as nat, *parsers),
                decreases entries@.len(),
            {
                assert(entries@[0] == e0[out@.len() as int]);
                let (k, v) = entries.remove(0);
                match resolve_value(v, depth, parsers) {
                    Ok(y) => out.push((k, y)),
                    Err(e) => return Err(e),
                }
                assert(entries@ =~= e0.subrange(out@.len() as int, e0.len() as int));
            }
            proof {
                if keys_unique(e0) {
                    assert forall|i: int, j: int| 0 <= i < j < out@.len() implies out@[i].0@ != out@[j].0@ by {
                        assert(out@[i].0 == e0[i].0);
                        assert(out@[j].0 == e0[j].0);
                    }
                }
            }
            Ok(Bson::Document(Document { entries: out }))
        },
        Some(k) => {
            let (_, first) = entries.remove(0);
            match k {
                SpecialKey::Oid => resolve_oid(first),
                SpecialKey::Symbol => match first {
                    Bson::String(t) => Ok(Bson::Symbol(t)),
                    _ => Err(ExtJsonError::InvalidValue { key: k }),
                },
                SpecialKey::NumberInt | SpecialKey::NumberLong => resolve_integer(k, first),
                SpecialKey::NumberDouble => resolve_double(first, parsers),
                SpecialKey::Binary => resolve_binary(first),
                SpecialKey::Uuid => resolve_uuid(first),
                SpecialKey::Timestamp => resolve_timestamp(first),
                SpecialKey::RegularExpression => resolve_regex(first),
                SpecialKey::DbPointer => resolve_db_pointer(first),
                SpecialKey::Date => resolve_date(first, parsers),
                SpecialKey::MaxKey | SpecialKey::MinKey | SpecialKey::Undefined => resolve_marker(k, first),
                SpecialKey::NumberDecimal => resolve_decimal(first, parsers),
                SpecialKey::NumberDecimalBytes => resolve_decimal_bytes(first),
                SpecialKey::Code => {
                    let code = match first {
                        Bson::String(c) => c,
                        _ => return Err(ExtJsonError::InvalidValue { key: k }),
                    };
                    if entries.len() == 0 {
                        return Ok(Bson::JavaScriptCode(code));
                    }
                    let (k2, v2) = entries.remove(0);
                    if !text_is(k2.as_str().as_bytes(), SpecialKey::Scope) {
                        return Err(ExtJsonError::UnknownField { key: k2 });
                    }
                    match resolve_scope(v2, depth, parsers) {
                        Ok(scope) => Ok(Bson::JavaScriptCodeWithScope(JavaScriptCodeWithScope { code, scope })),
                        Err(e) => Err(e),
                    }
                },
                SpecialKey::Scope => {
                    let scope = match resolve_scope(first, depth, parsers) {
                        Ok(scope) => scope,
                        Err(e) => return Err(e),
                    };
                    if entries.len() == 0 {
                        return Err(ExtJsonError::MissingField { key: SpecialKey::Code });
                    }
                    let (k2, v2) = entries.remove(0);
                    if !text_is(k2.as_str().as_bytes(), SpecialKey::Code) {
                        return Err(ExtJsonError::UnknownField { key: k2 });
                    }
                    match v2 {
                        Bson::String(code) => Ok(Bson::JavaScriptCodeWithScope(JavaScriptCodeWithScope { code, scope })),
                        _ => Err(ExtJsonError::InvalidValue { key: SpecialKey::Code }),
                    }
                },
            }
        },
    }
}

/// Reads the document under `$scope`: it must resolve to a plain document.
fn resolve_scope<F: Fn(&str) -> Option<u64>, G: Fn(&str) -> Option<[u8; 16]>, H: Fn(&str) -> Option<i64>>(v: Bson, depth: usize, parsers: &TextParsers<F, G, H>) -> (r: Result<Document, ExtJsonError>)
    requires
        parsers.ready(),
    ensures
        (v matches Bson::Document(sd) && sd.entries@.len() == 0) ==> (r matches Ok(o) && o.entries@.len() == 0),
        !(v is Document) ==> r is Err,
        scope_plain(v, depth as nat) ==> (r matches Ok(o) && same_scope(o, v, depth as nat)),
        r matches Ok(o) ==> (v matches Bson::Document(sd) && scope_resolved(sd, o, depth as nat, *parsers)),
    decreases depth, 0usize,
{
    match v {
        Bson::Document(sd) => {
            if sd.entries.len() == 0 {
                return Ok(sd);
            }
            if depth == 0 {
                return Err(ExtJsonError::TooDeep);
            }
            match resolve_document(sd, depth - 1, parsers) {
                Ok(Bson::Document(o)) => Ok(o),
                Ok(_) => Err(ExtJsonError::InvalidValue { key: SpecialKey::Scope }),
                Err(e) => Err(e),
            }
        },
        _ => Err(ExtJsonError::InvalidValue { key: SpecialKey::Scope }),
    }
}

/// Reads a document as extended JSON, nesting at most `MAX_DEPTH` deep.
/// `parsers` read the text forms left to collaborators: `$numberDouble` text other
/// than "Infinity", "-Infinity" and "NaN", `$numberDecimal` text, and `$date` text.
pub fn from_document<F: Fn(&str) -> Option<u64>, G: Fn(&str) -> Option<[u8; 16]>, H: Fn(&str) -> Option<i64>>(doc: Document, parsers: &TextParsers<F, G, H>) -> (r: Result<Bson, ExtJsonError>)
    requires
        parsers.ready(),
    ensures
        doc.entries@.len() == 0 ==> (r matches Ok(Bson::Document(o)) && o.entries@.len() == 0),
        first_special(doc.entries@) matches Some(k) ==> (r matches Ok(v) ==> yields(k, v)),
        first_special(doc.entries@) is None ==> (r matches Ok(v) ==> (v matches Bson::Document(o)
            && same_keys(o.entries@, doc.entries@))),
        keys_unique(doc.entries@) && first_special(doc.entries@) is None ==> (r matches Ok(Bson::Document(o))
            ==> keys_unique(o.entries@)),
        first_special(doc.entries@) matches Some(k) ==> special_rule(k, doc.entries@[0].1, r, *parsers),
        code_scope_rule(doc.entries@, r, MAX_DEPTH as nat),
        r matches Ok(y) ==> doc_resolved(doc.entries@, y, MAX_DEPTH as nat, *parsers),
        plain_doc(doc.entries@, MAX_DEPTH as nat) ==> (r matches Ok(Bson::Document(o)) && same_entries(
            o.entries@,
            doc.entries@,
            MAX_DEPTH as nat,
        )),
{
    resolve_document(doc, MAX_DEPTH, parsers)
}

} // verus!
