//! Fixed-width values: object ids, decimals, timestamps and dates.
use vstd::prelude::*;
use vstd::string::StringSliceAdditionalSpecFns;

verus! {

/// A 12-byte object id.
#[derive(Debug, Clone, Copy, PartialEq, Eq)]
pub struct ObjectId {
    pub bytes: [u8; 12],
}

/// A decimal number, held as its 16 little-endian bytes.
#[derive(Debug, Clone, Copy, PartialEq, Eq)]
pub struct Decimal128 {
    pub bytes: [u8; 16],
}

/// A replication timestamp: seconds and an increment.
#[derive(Debug, Clone, Copy, PartialEq, Eq, Structural)]
pub struct Timestamp {
    pub time: u32,
    pub increment: u32,
}

/// Milliseconds since the Unix epoch.
#[derive(Debug, Clone, Copy, PartialEq, Eq, Structural)]
pub struct DateTime {
    pub millis: i64,
}

/// Copies the 12 bytes at `pos`.
pub fn read_bytes12(buf: &[u8], pos: usize) -> (r: [u8; 12])
    requires
        pos + 12 <= buf@.len(),
    ensures
        r@ == buf@.subrange(pos as int, pos + 12),
{
    let mut a: [u8; 12] = [0u8; 12];
    let mut i: usize = 0;
    assert(buf@.len() == buf.len());
    while i < 12
        invariant
            0 <= i <= 12,
            buf@.len() <= usize::MAX,
            pos + 12 <= buf@.len(),
            a@.len() == 12,
            forall|k: int| 0 <= k < i ==> a@[k] == buf@[pos + k],
        decreases 12 - i,
    {
        a[i] = buf[pos + i];
        i = i + 1;
    }
    assert(a@ =~= buf@.subrange(pos as int, pos + 12));
    a
}

/// Copies the 16 bytes at `pos`.
pub fn read_bytes16(buf: &[u8], pos: usize) -> (r: [u8; 16])
    requires
        pos + 16 <= buf@.len(),
    ensures
        r@ == buf@.subrange(pos as int, pos + 16),
{
    let mut a: [u8; 16] = [0u8; 16];
    let mut i: usize = 0;
    assert(buf@.len() == buf.len());
    while i < 16
        invariant
            0 <= i <= 16,
            buf@.len() <= usize::MAX,
            pos + 16 <= buf@.len(),
            a@.len() == 16,
            forall|k: int| 0 <= k < i ==> a@[k] == buf@[pos + k],
        decreases 16 - i,
    {
        a[i] = buf[pos + i];
        i = i + 1;
    }
    assert(a@ =~= buf@.subrange(pos as int, pos + 16));
    a
}

/// The value of a hex digit, either case.
pub open spec fn hex_val(c: u8) -> Option<int> {
    if 48 <= c <= 57 {
        Some(c - 48)
    } else if 97 <= c <= 102 {
        Some(c - 87)
    } else if 65 <= c <= 70 {
        Some(c - 55)
    } else {
        None
    }
}

/// The bytes that hex text spells, two digits each, high digit first.
pub open spec fn hex_decoded(s: Seq<u8>) -> Option<Seq<u8>> {
    if s.len() % 2 == 0 && forall|i: int| 0 <= i < s.len() ==> hex_val(s[i]) is Some {
        Some(
            Seq::new(
                (s.len() / 2) as nat,
                |i: int| (hex_val(s[2 * i])->0 * 16 + hex_val(s[2 * i + 1])->0) as u8,
            ),
        )
    } else {
        None
    }
}

/// Relies on hex::decode: an even number of hex digits, either case, two to a byte;
/// anything else is refused.
#[verifier::external_body]
pub(crate) fn hex_decode(s: &str) -> (r: Option<Vec<u8>>)
    ensures
        r is Some <==> hex_decoded(s.spec_bytes()) is Some,
        r matches Some(v) ==> hex_decoded(s.spec_bytes()) == Some(v@),
{
    hex::decode(s).ok()
}

/// Why text is not an object id.
#[derive(Debug, Clone, Copy, PartialEq, Eq, Structural)]
pub enum OidError {
    /// Not hex text.
    InvalidHexString,
    /// Hex text of another length than 24 digits.
    InvalidLength,
}

impl ObjectId {
    /// An object id from its 12 bytes.
    pub fn from_bytes(bytes: [u8; 12]) -> (r: ObjectId)
        ensures
            r.bytes == bytes,
    {
        ObjectId { bytes }
    }

    /// The 12 bytes.
    pub fn bytes(&self) -> (r: [u8; 12])
        ensures
            r == self.bytes,
    {
        self.bytes
    }

    /// Reads an object id from 24 hex digits.
    pub fn parse_str(s: &str) -> (r: Result<ObjectId, OidError>)
        ensures
            r is Ok <==> (hex_decoded(s.spec_bytes()) matches Some(b) && b.len() == 12),
            r matches Ok(o) ==> hex_decoded(s.spec_bytes()) == Some(o.bytes@),
            r == Err::<ObjectId, OidError>(OidError::InvalidHexString) <==> hex_decoded(
                s.spec_bytes(),
            ) is None,
    {
        match hex_decode(s) {
            None => Err(OidError::InvalidHexString),
            Some(v) => {
                if v.len() != 12 {
                    Err(OidError::InvalidLength)
                } else {
                    Ok(ObjectId { bytes: read_bytes12(v.as_slice(), 0) })
                }
            },
        }
    }
}

} // verus!
