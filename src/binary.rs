//! Owned binary values.
use vstd::prelude::*;
use vstd::slice::slice_to_vec;
use vstd::string::StringSliceAdditionalSpecFns;

use crate::raw::RawBinaryRef;
use crate::spec::BinarySubtype;

verus! {

/// A binary value: its subtype and its bytes.
#[derive(Debug, Clone, PartialEq)]
pub struct Binary {
    pub subtype: BinarySubtype,
    pub bytes: Vec<u8>,
}

/// Why a binary value could not be built.
#[derive(Debug, Clone, PartialEq)]
pub enum Error {
    /// The text is not base64; the message says why.
    DecodingError { message: String },
}

/// What `base64::decode` makes of a text: its bytes, or `None` where it refuses it.
pub uninterp spec fn base64_decoded(s: Seq<u8>) -> Option<Seq<u8>>;

/// Relies on base64::decode (standard alphabet): the bytes that the text encodes,
/// or a refusal with its message, depending on the text alone.
#[verifier::external_body]
fn base64_decode(s: &str) -> (r: Result<Vec<u8>, String>)
    requires
        s.spec_bytes().len() + 3 <= usize::MAX,
    ensures
        r is Ok <==> base64_decoded(s.spec_bytes()) is Some,
        r matches Ok(v) ==> base64_decoded(s.spec_bytes()) == Some(v@),
{
    base64::decode(s).map_err(|e| e.to_string())
}

impl Binary {
    /// Builds a binary value from decoded base64: the subtype defaults to `Generic`.
    pub fn from_decoded(decoded: Result<Vec<u8>, String>, subtype: Option<BinarySubtype>) -> (r: Result<Binary, Error>)
        ensures
            match decoded {
                Ok(bytes) => r matches Ok(b) && b.bytes == bytes && b.subtype == (match subtype {
                    Some(s) => s,
                    None => BinarySubtype::Generic,
                }),
                Err(message) => r == Err::<Binary, Error>(Error::DecodingError { message }),
            },
    {
        match decoded {
            Ok(bytes) => {
                let subtype = match subtype {
                    Some(s) => s,
                    None => BinarySubtype::Generic,
                };
                Ok(Binary { subtype, bytes })
            },
            Err(message) => Err(Error::DecodingError { message }),
        }
    }

    /// Decodes base64 text into a binary value; the subtype defaults to `Generic`.
    pub fn from_base64(input: &str, subtype: Option<BinarySubtype>) -> (r: Result<Binary, Error>)
        requires
            input.spec_bytes().len() + 3 <= usize::MAX,
        ensures
            r is Ok <==> base64_decoded(input.spec_bytes()) is Some,
            r matches Ok(b) ==> Some(b.bytes@) == base64_decoded(input.spec_bytes()) && b.subtype == (
            match subtype {
                Some(s) => s,
                None => BinarySubtype::Generic,
            }),
    {
        Binary::from_decoded(base64_decode(input), subtype)
    }

    /// Borrows the contents.
    pub fn as_raw_binary(&self) -> (r: RawBinaryRef<'_>)
        ensures
            r.bytes@ == self.bytes@,
            r.subtype == self.subtype,
    {
        RawBinaryRef { bytes: self.bytes.as_slice(), subtype: self.subtype }
    }
}

impl<'a> RawBinaryRef<'a> {
    /// Copies the contents into an owned value.
    pub fn to_binary(&self) -> (r: Binary)
        ensures
            r.bytes@ == self.bytes@,
            r.subtype == self.subtype,
    {
        Binary { subtype: self.subtype, bytes: slice_to_vec(self.bytes) }
    }
}

} // verus!
