//! Laws that relate the decoder, the encoder and the owned conversion.
use vstd::prelude::*;

use crate::codec::{i32_bytes, le_i32, lemma_i32_round_trip};
use crate::owned::{document_bytes, document_ok, entries_bytes, framed};
use crate::value::Document;
use crate::raw::{
    binary_payload, decodes_to, doc_ok, kind_of, raw_payload, RawBinaryRef, RawBsonRef,
};
use crate::spec::{subtype_byte, type_tag, BinarySubtype};

verus! {

/// Decoding a value and writing it back gives exactly the bytes it was read from.
pub proof fn law_value_round_trip(b: Seq<u8>, tag: u8, start: int, next: int, v: RawBsonRef)
    requires
        decodes_to(b, tag, start, next, v),
    ensures
        raw_payload(v) == b.subrange(start, next),
        type_tag(kind_of(v)) == tag,
{
}

/// A document cut short by its final byte is refused: it no longer ends in a nul
/// at its declared length.
pub proof fn law_truncated_document_refused(b: Seq<u8>)
    requires
        doc_ok(b),
    ensures
        !doc_ok(b.subrange(0, b.len() - 1)),
{
    let t = b.subrange(0, b.len() - 1);
    if t.len() >= 5 {
        assert(le_i32(t, 0) == le_i32(b, 0));
    }
}

proof fn lemma_kind_of_binary(v: RawBsonRef)
    requires
        type_tag(kind_of(v)) == 0x05,
    ensures
        v is Binary,
{
}

/// An old-style binary value declares its length plus four and holds its own length
/// inside; the bytes read back from that payload are the same bytes.
pub proof fn law_binary_old_fidelity(bin: RawBinaryRef, v: RawBsonRef)
    requires
        bin.subtype == BinarySubtype::BinaryOld,
        bin.bytes@.len() + 4 <= i32::MAX,
        decodes_to(binary_payload(bin), 0x05, 0, binary_payload(bin).len() as int, v),
    ensures
        binary_payload(bin).len() == bin.bytes@.len() + 9,
        le_i32(binary_payload(bin), 0) == bin.bytes@.len() + 4,
        le_i32(binary_payload(bin), 5) == bin.bytes@.len(),
        v matches RawBsonRef::Binary(vb) && vb.subtype == BinarySubtype::BinaryOld && vb.bytes@
            == bin.bytes@,
{
    let p = binary_payload(bin);
    let n = bin.bytes@.len();
    lemma_i32_round_trip((n + 4) as i32);
    lemma_i32_round_trip(n as i32);
    assert(p.subrange(0, 4) =~= i32_bytes((n + 4) as i32));
    assert(p.subrange(5, 9) =~= i32_bytes(n as i32));
    assert(le_i32(p, 0) == le_i32(p.subrange(0, 4), 0));
    assert(le_i32(p, 5) == le_i32(p.subrange(5, 9), 0));
    lemma_kind_of_binary(v);
    let vb = v->Binary_0;
    assert(p[4] == 2u8);
    assert(raw_payload(v) == binary_payload(vb));
    assert(binary_payload(vb)[4] == subtype_byte(vb.subtype));
    assert(vb.subtype == BinarySubtype::BinaryOld);
    assert(binary_payload(vb).len() == vb.bytes@.len() + 9);
    assert(p.subrange(9, p.len() as int) =~= bin.bytes@);
    assert(binary_payload(vb).subrange(9, p.len() as int) =~= vb.bytes@);
}

/// A written document is well framed: its declared length counts every byte and
/// it ends in a nul, so reading it back passes the frame checks.
pub proof fn law_written_document_is_framed(d: Document, fuel: nat)
    requires
        document_ok(d, fuel),
    ensures
        doc_ok(document_bytes(d, fuel)),
{
    let body = entries_bytes(d.entries@, fuel);
    let b = framed(body);
    let n = (body.len() + 5) as i32;
    lemma_i32_round_trip(n);
    assert(b.subrange(0, 4) =~= i32_bytes(n));
    assert(le_i32(b, 0) == le_i32(b.subrange(0, 4), 0));
}

} // verus!
