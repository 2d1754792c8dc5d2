//! Conversion between borrowed views and the owned value tree.
use vstd::prelude::*;
use vstd::string::StringSliceAdditionalSpecFns;
use vstd::utf8::{decode_utf8, encode_utf8};

use crate::binary::Binary;
use crate::codec::{
    cstr_end, cstring_bytes, i32_bytes, i64_bytes, le_i32, lemma_i32_bytes_of_read,
    lemma_string_len_prefix, string_bytes, u32_bytes, u64_bytes, write_bytes, write_cstring,
    write_i32, write_i64, write_string, write_u32, write_u64,
};
use crate::raw::{
    cstr_at, doc_ok, element_at, element_holds, kind_of, no_nul, raw_payload, raw_writable,
    RawArray, RawBsonRef, RawDocument, RawError, RawRegexRef,
};
use crate::spec::{subtype_byte, type_tag, BinarySubtype, ElementType};
use crate::value::{chars_sorted, key_index, keys_unique, Bson, DbPointer, Document, JavaScriptCodeWithScope, Regex};

verus! {

/// How deep documents and arrays may nest when read into owned values.
pub const MAX_NESTING: usize = 100;

/// Why owned values could not be built or written.
#[derive(Debug, Clone, Copy, PartialEq, Eq, Structural)]
pub enum OwnedError {
    /// The bytes are malformed.
    Raw(RawError),
    /// Documents and arrays nest deeper than `MAX_NESTING`.
    TooDeep,
    /// A key holds a nul byte, which a C-string cannot.
    KeyHasNul,
    /// A value is larger than a length prefix can count.
    TooLarge,
}

/// The payload bytes of kind `tag` are written back unchanged by the owned form:
/// regular-expression options already sorted, array keys "0", "1", ... in order.
pub open spec fn canon_value(p: Seq<u8>, tag: u8, fuel: nat) -> bool
    decreases fuel, 0int,
{
    if tag == 0x03 {
        fuel > 0 && canon_from(p, 4, (fuel - 1) as nat, false, 0) && keys_from(p, 4).no_duplicates()
    } else if tag == 0x04 {
        fuel > 0 && canon_from(p, 4, (fuel - 1) as nat, true, 0)
    } else if tag == 0x0F {
        fuel > 0 && canon_from(p.subrange(8 + le_i32(p, 4), p.len() as int), 4, (fuel - 1) as nat, false, 0)
            && keys_from(p.subrange(8 + le_i32(p, 4), p.len() as int), 4).no_duplicates()
    } else if tag == 0x0B {
        match cstr_at(p, 0) {
            Some(e1) => chars_sorted(decode_utf8(p.subrange(e1 + 1, p.len() - 1))),
            None => false,
        }
    } else {
        true
    }
}

/// Every element from `pos` on is well formed and canonical, the `idx`-th of an
/// array being keyed by its position.
pub open spec fn canon_from(b: Seq<u8>, pos: int, fuel: nat, arr: bool, idx: nat) -> bool
    decreases fuel, b.len() - pos + 1,
{
    if pos < 4 || pos + 1 > b.len() {
        false
    } else if pos + 1 == b.len() {
        true
    } else {
        match element_at(b, pos) {
            None => false,
            Some((e, next)) => {
                &&& next > pos
                &&& (arr ==> b.subrange(pos + 1, e) == decimal_digits(idx))
                &&& canon_value(b.subrange(e + 1, next), b[pos], fuel)
                &&& canon_from(b, next, fuel, arr, idx + 1)
            },
        }
    }
}

/// The payload bytes of kind `tag` hold only well-formed elements, nested at
/// most `fuel` deep.
pub open spec fn wf_value(p: Seq<u8>, tag: u8, fuel: nat) -> bool
    decreases fuel, 0int,
{
    if tag == 0x03 || tag == 0x04 {
        fuel > 0 && wf_from(p, 4, (fuel - 1) as nat)
    } else if tag == 0x0F {
        fuel > 0 && wf_from(p.subrange(8 + le_i32(p, 4), p.len() as int), 4, (fuel - 1) as nat)
    } else {
        true
    }
}

/// Every element from `pos` on is well formed, nested at most `fuel` deep.
pub open spec fn wf_from(b: Seq<u8>, pos: int, fuel: nat) -> bool
    decreases fuel, b.len() - pos + 1,
{
    if pos < 4 || pos + 1 > b.len() {
        false
    } else if pos + 1 == b.len() {
        true
    } else {
        match element_at(b, pos) {
            None => false,
            Some((e, next)) => next > pos && wf_value(b.subrange(e + 1, next), b[pos], fuel) && wf_from(
                b,
                next,
                fuel,
            ),
        }
    }
}

proof fn lemma_canon_value_wf(p: Seq<u8>, tag: u8, fuel: nat)
    requires
        canon_value(p, tag, fuel),
    ensures
        wf_value(p, tag, fuel),
    decreases fuel, 0int,
{
    if tag == 0x03 {
        lemma_canon_from_wf(p, 4, (fuel - 1) as nat, false, 0);
    } else if tag == 0x04 {
        lemma_canon_from_wf(p, 4, (fuel - 1) as nat, true, 0);
    } else if tag == 0x0F {
        lemma_canon_from_wf(p.subrange(8 + le_i32(p, 4), p.len() as int), 4, (fuel - 1) as nat, false, 0);
    }
}

/// Canonical elements are well formed.
proof fn lemma_canon_from_wf(b: Seq<u8>, pos: int, fuel: nat, arr: bool, idx: nat)
    requires
        canon_from(b, pos, fuel, arr, idx),
    ensures
        wf_from(b, pos, fuel),
    decreases fuel, b.len() - pos + 1,
{
    if 4 <= pos && pos + 1 < b.len() {
        let (e, next) = element_at(b, pos)->0;
        lemma_canon_value_wf(b.subrange(e + 1, next), b[pos], fuel);
        lemma_canon_from_wf(b, next, fuel, arr, idx + 1);
    }
}

/// The keys of the elements from `pos` on, in order, as long as they are well formed.
pub open spec fn keys_from(b: Seq<u8>, pos: int) -> Seq<Seq<u8>>
    decreases b.len() - pos,
{
    if pos < 4 || pos + 1 >= b.len() {
        Seq::empty()
    } else {
        match element_at(b, pos) {
            Some((e, next)) => if pos < next < b.len() {
                seq![b.subrange(pos + 1, e)] + keys_from(b, next)
            } else {
                Seq::empty()
            },
            None => Seq::empty(),
        }
    }
}

/// The bytes of each entry's key.
pub open spec fn entry_keys(e: Seq<(String, Bson)>) -> Seq<Seq<u8>> {
    Seq::new(e.len(), |i: int| text(e[i].0))
}

/// The next key of a walk whose keys are distinct is not among the keys read so far.
proof fn lemma_fresh_key(b: Seq<u8>, pos: int, next: int, kb: Seq<u8>, entries: Seq<(String, Bson)>, k: String)
    requires
        keys_from(b, 4).no_duplicates(),
        keys_from(b, 4) == entry_keys(entries) + keys_from(b, pos),
        keys_from(b, pos) == seq![kb] + keys_from(b, next),
        text(k) == kb,
    ensures
        key_index(entries, k@) is None,
        keys_from(b, 4) == entry_keys(entries.push((k, Bson::Null))) + keys_from(b, next),
{
    let ek = entry_keys(entries);
    assert(keys_from(b, 4)[ek.len() as int] == kb);
    assert forall|j: int| 0 <= j < entries.len() implies entries[j].0@ != k@ by {
        assert(keys_from(b, 4)[j] == ek[j]);
    }
    assert(entry_keys(entries.push((k, Bson::Null))) =~= ek.push(kb));
    assert(keys_from(b, 4) =~= ek.push(kb) + keys_from(b, next));
}

/// An element as the owned reading sees it: its key's bytes, its tag, and the
/// bounds of its payload.
pub type ElementModel = (Seq<u8>, u8, int, int);

/// The model after one more element: a key seen before keeps its place and
/// takes the new payload, a new key goes last.
pub open spec fn model_insert(m: Seq<ElementModel>, x: ElementModel) -> Seq<ElementModel> {
    if exists|i: int| 0 <= i < m.len() && m[i].0 == x.0 {
        m.update(choose|i: int| 0 <= i < m.len() && m[i].0 == x.0, x)
    } else {
        m.push(x)
    }
}

/// The elements from `pos` on, folded into `m` as the owned reading keeps them.
pub open spec fn doc_model(b: Seq<u8>, pos: int, m: Seq<ElementModel>) -> Seq<ElementModel>
    decreases b.len() - pos,
{
    if pos < 4 || pos + 1 >= b.len() {
        m
    } else {
        match element_at(b, pos) {
            Some((e, next)) => if pos < next < b.len() {
                doc_model(b, next, model_insert(m, (b.subrange(pos + 1, e), b[pos], e + 1, next)))
            } else {
                m
            },
            None => m,
        }
    }
}

/// The values of an array from `pos` on, in order: tag and payload bounds.
pub open spec fn array_model(b: Seq<u8>, pos: int) -> Seq<(u8, int, int)>
    decreases b.len() - pos,
{
    if pos < 4 || pos + 1 >= b.len() {
        Seq::empty()
    } else {
        match element_at(b, pos) {
            Some((e, next)) => if pos < next < b.len() {
                seq![(b[pos], e + 1, next)] + array_model(b, next)
            } else {
                Seq::empty()
            },
            None => Seq::empty(),
        }
    }
}

/// The owned regular expression read from payload `p`: the same pattern, the
/// options' characters sorted.
pub open spec fn regex_matches(o: Bson, p: Seq<u8>) -> bool {
    o matches Bson::RegularExpression(re) && (cstr_at(p, 0) matches Some(e1) && text(re.pattern)
        == p.subrange(0, e1) && chars_sorted(re.options@) && re.options@.to_multiset() == decode_utf8(
        p.subrange(e1 + 1, p.len() - 1),
    ).to_multiset())
}

/// `o` is the owned reading of payload `p` of kind `tag`: documents keep the first
/// place of each key and its last value, arrays keep their values in order,
/// regular expressions sort their options, and every other value writes back as `p`.
pub open spec fn owned_matches(o: Bson, p: Seq<u8>, tag: u8, fuel: nat) -> bool
    decreases fuel, 0int,
{
    if tag == 0x03 {
        fuel > 0 && (o matches Bson::Document(d) && doc_matches(d.entries@, p, (fuel - 1) as nat))
    } else if tag == 0x04 {
        fuel > 0 && (o matches Bson::Array(a) && array_matches(a@, p, (fuel - 1) as nat))
    } else if tag == 0x0F {
        fuel > 0 && (o matches Bson::JavaScriptCodeWithScope(c) && text(c.code) == p.subrange(8, 8 + le_i32(p, 4) - 1)
            && doc_matches(c.scope.entries@, p.subrange(8 + le_i32(p, 4), p.len() as int), (fuel - 1) as nat))
    } else if tag == 0x0B {
        regex_matches(o, p)
    } else {
        type_tag(bson_kind(o)) == tag && bson_payload(o, fuel) == p
    }
}

/// The entries are the owned reading of document bytes `p`.
pub open spec fn doc_matches(e: Seq<(String, Bson)>, p: Seq<u8>, fuel: nat) -> bool
    decreases fuel, 1int,
{
    let m = doc_model(p, 4, Seq::empty());
    e.len() == m.len() && forall|i: int|
        0 <= i < e.len() ==> text(#[trigger] e[i].0) == m[i].0 && owned_matches(
            e[i].1,
            p.subrange(m[i].2, m[i].3),
            m[i].1,
            fuel,
        )
}

/// The items are the owned reading of array bytes `p`.
pub open spec fn array_matches(a: Seq<Bson>, p: Seq<u8>, fuel: nat) -> bool
    decreases fuel, 1int,
{
    let m = array_model(p, 4);
    a.len() == m.len() && forall|i: int|
        0 <= i < a.len() ==> owned_matches(#[trigger] a[i], p.subrange(m[i].1, m[i].2), m[i].0, fuel)
}

/// Each entry is the owned reading of the element that the model keeps for it.
pub open spec fn entries_model(e: Seq<(String, Bson)>, m: Seq<ElementModel>, b: Seq<u8>, fuel: nat) -> bool {
    e.len() == m.len() && forall|i: int|
        0 <= i < e.len() ==> text(#[trigger] e[i].0) == m[i].0 && owned_matches(
            e[i].1,
            b.subrange(m[i].2, m[i].3),
            m[i].1,
            fuel,
        )
}

/// Inserting into the document follows inserting into its model.
proof fn lemma_model_insert(
    e: Seq<(String, Bson)>,
    m: Seq<ElementModel>,
    b: Seq<u8>,
    fuel: nat,
    k: String,
    v: Bson,
    x: ElementModel,
    e2: Seq<(String, Bson)>,
)
    requires
        keys_unique(e),
        entries_model(e, m, b, fuel),
        text(k) == x.0,
        owned_matches(v, b.subrange(x.2, x.3), x.1, fuel),
        match key_index(e, k@) {
            Some(i) => e2 == e.update(i, (e[i].0, v)),
            None => e2 == e.push((k, v)),
        },
    ensures
        entries_model(e2, model_insert(m, x), b, fuel),
{
    assert forall|i: int| 0 <= i < e.len() implies (m[i].0 == x.0 <==> e[i].0@ == k@) by {
        vstd::utf8::encode_utf8_decode_utf8(e[i].0@);
        vstd::utf8::encode_utf8_decode_utf8(k@);
    }
    match key_index(e, k@) {
        Some(i) => {
            assert(0 <= i < e.len() && e[i].0@ == k@);
            assert(m[i].0 == x.0);
            let c = choose|j: int| 0 <= j < m.len() && m[j].0 == x.0;
            assert(e[c].0@ == k@);
            if c != i {
                if c < i {
                    assert(e[c].0@ != e[i].0@);
                } else {
                    assert(e[i].0@ != e[c].0@);
                }
            }
            assert(model_insert(m, x) == m.update(i, x));
        },
        None => {
            assert(forall|j: int| 0 <= j < m.len() ==> m[j].0 != x.0);
            assert(model_insert(m, x) == m.push(x));
        },
    }
}

/// Document bytes are their framed elements.
proof fn lemma_framed_doc(b: Seq<u8>)
    requires
        doc_ok(b),
    ensures
        framed(b.subrange(4, b.len() - 1)) == b,
{
    lemma_i32_bytes_of_read(b, 0);
    assert(framed(b.subrange(4, b.len() - 1)) =~= b);
}

/// The bytes of one element: its tag, its key with a nul, its payload.
proof fn element_step(b: Seq<u8>, pos: int, key: Seq<u8>, v: RawBsonRef, next: int, fuel: nat)
    requires
        element_holds(b, pos, key, v, next),
    ensures
        b.subrange(pos, next) == seq![type_tag(kind_of(v))] + cstring_bytes(key) + raw_payload(v),
        element_at(b, pos) == Some((pos + 1 + key.len(), next)),
{
    let e = pos + 1 + key.len();
    assert(cstr_at(b, pos + 1) == Some(e));
    assert(cstr_end(b, pos + 1, e));
    assert(b[e] == 0);
    assert(b.subrange(pos, next) =~= seq![b[pos]] + (b.subrange(pos + 1, e) + seq![0u8]) + b.subrange(e + 1, next));
}

/// Copies a borrowed regular expression, sorting its options.
fn regex_from_raw(re: RawRegexRef) -> (o: Regex)
    requires
        no_nul(re.pattern.spec_bytes()),
        no_nul(re.options.spec_bytes()),
    ensures
        o.pattern@ == re.pattern@,
        chars_sorted(o.options@),
        o.options@.to_multiset() == re.options@.to_multiset(),
        canon_value(raw_payload(RawBsonRef::RegularExpression(re)), 0x0B, 0) ==> text(o.options)
            == re.options.spec_bytes() && text(o.pattern) == re.pattern.spec_bytes(),
        regex_matches(Bson::RegularExpression(o), raw_payload(RawBsonRef::RegularExpression(re))),
{
    let o = Regex::new(re.pattern, re.options);
    proof {
        let pb = re.pattern.spec_bytes();
        let ob = re.options.spec_bytes();
        let p = raw_payload(RawBsonRef::RegularExpression(re));
        vstd::utf8::encode_utf8_valid_utf8(re.pattern@);
        vstd::utf8::encode_utf8_decode_utf8(re.options@);
        assert(p =~= pb + seq![0u8] + ob + seq![0u8]);
        assert(p.subrange(0, pb.len() as int) =~= pb);
        assert(cstr_end(p, 0, pb.len() as int));
        let c0 = cstr_at(p, 0)->0;
        assert(cstr_end(p, 0, c0));
        if c0 < pb.len() {
            assert(p[c0] == pb[c0]);
        } else if c0 > pb.len() {
            assert(p[pb.len() as int] != 0);
        }
        assert(p.subrange(c0 + 1, p.len() - 1) =~= ob);
        if canon_value(p, 0x0B, 0) {
            vstd::utf8::encode_utf8_valid_utf8(re.pattern@);
            vstd::utf8::encode_utf8_decode_utf8(re.options@);
            assert(p =~= pb + seq![0u8] + ob + seq![0u8]);
            assert(p.subrange(0, pb.len() as int) =~= pb);
            assert(cstr_end(p, 0, pb.len() as int));
            let c = cstr_at(p, 0)->0;
            assert(cstr_end(p, 0, c));
            if c < pb.len() {
                assert(p[c] == pb[c]);
            } else if c > pb.len() {
                assert(p[pb.len() as int] != 0);
            }
            assert(p.subrange(c + 1, p.len() - 1) =~= ob);
            assert(chars_sorted(re.options@));
            assert(o.options@ == re.options@);
            assert(text(o.options) == ob);
            assert(text(o.pattern) == pb);
        }
    }
    o
}

/// Copies a borrowed document, array or code with scope, whose nested documents
/// may go `inner` levels deeper.
fn nested_from_raw(v: RawBsonRef, inner: usize) -> (r: Result<Bson, OwnedError>)
    requires
        raw_writable(v),
        v is Document || v is Array || v is JavaScriptCodeWithScope,
        inner < usize::MAX,
    ensures
        r matches Ok(o) ==> bson_kind(o) == kind_of(v),
        r is Ok <==> wf_value(raw_payload(v), type_tag(kind_of(v)), inner as nat + 1),
        r matches Ok(o) ==> (canon_value(raw_payload(v), type_tag(kind_of(v)), inner as nat + 1) ==> bson_payload(
            o,
            inner as nat + 1,
        ) == raw_payload(v) && payload_ok(o, inner as nat + 1)),
        v is Document ==> (r matches Ok(x) ==> x is Document),
        v is Array ==> (r matches Ok(x) ==> x is Array),
        r matches Ok(o) ==> owned_matches(o, raw_payload(v), type_tag(kind_of(v)), inner as nat + 1),
    decreases inner, 2usize,
{
    assert((inner as nat + 1 - 1) as nat == inner as nat);
    match v {
        RawBsonRef::Array(a) => {
            let ab = a.as_bytes();
            assert(ab@ == a.bytes());
            match array_from_raw(a, inner) {
                Ok(items) => Ok(Bson::Array(items)),
                Err(e) => Err(e),
            }
        },
        RawBsonRef::Document(d) => {
            let db = d.as_bytes();
            assert(db@ == d.bytes());
            match document_from_raw(d, inner) {
                Ok(doc) => Ok(Bson::Document(doc)),
                Err(e) => Err(e),
            }
        },
        RawBsonRef::JavaScriptCodeWithScope(c) => {
            proof {
                let p = raw_payload(v);
                let cb = c.code.spec_bytes();
                lemma_string_len_prefix(cb);
                assert(p.subrange(4, 4 + string_bytes(cb).len() as int) =~= string_bytes(cb));
                assert(le_i32(p, 4) == le_i32(string_bytes(cb), 0));
                assert(p.subrange(8 + le_i32(p, 4), p.len() as int) =~= c.scope.bytes());
                assert(p.subrange(8, 8 + le_i32(p, 4) - 1) =~= cb);
            }
            let sb = c.scope.as_bytes();
            assert(sb@ == c.scope.bytes());
            match document_from_raw(c.scope, inner) {
                Ok(scope) => {
                    let code = c.code.to_owned();
                    assert(text(code) == c.code.spec_bytes());
                    Ok(Bson::JavaScriptCodeWithScope(JavaScriptCodeWithScope { code, scope }))
                },
                Err(e) => Err(e),
            }
        },
        _ => Err(OwnedError::TooDeep),
    }
}

/// Copies a borrowed value into an owned one; nested documents are read in turn.
pub fn bson_from_raw(v: RawBsonRef, depth: usize) -> (r: Result<Bson, OwnedError>)
    requires
        raw_writable(v),
    ensures
        r matches Ok(o) ==> bson_kind(o) == kind_of(v),
        r is Ok <==> wf_value(raw_payload(v), type_tag(kind_of(v)), depth as nat),
        v matches RawBsonRef::RegularExpression(re) ==> (r matches Ok(Bson::RegularExpression(o))
            && o.pattern@ == re.pattern@ && chars_sorted(o.options@) && o.options@.to_multiset()
            == re.options@.to_multiset()),
        r matches Ok(o) ==> (canon_value(raw_payload(v), type_tag(kind_of(v)), depth as nat) ==> bson_payload(
            o,
            depth as nat,
        ) == raw_payload(v) && payload_ok(o, depth as nat)),
        v matches RawBsonRef::Int32(n) ==> r == Ok::<Bson, OwnedError>(Bson::Int32(n)),
        v matches RawBsonRef::Int64(n) ==> r == Ok::<Bson, OwnedError>(Bson::Int64(n)),
        v matches RawBsonRef::Double(n) ==> r == Ok::<Bson, OwnedError>(Bson::Double(n)),
        v matches RawBsonRef::Boolean(n) ==> r == Ok::<Bson, OwnedError>(Bson::Boolean(n)),
        v matches RawBsonRef::String(s) ==> (r matches Ok(Bson::String(t)) && t@ == s@),
        v matches RawBsonRef::Binary(b) ==> (r matches Ok(Bson::Binary(o)) && o.bytes@ == b.bytes@
            && o.subtype == b.subtype),
        v is Document ==> (r matches Ok(x) ==> x is Document),
        v is Array ==> (r matches Ok(x) ==> x is Array),
        r matches Ok(o) ==> owned_matches(o, raw_payload(v), type_tag(kind_of(v)), depth as nat),
    decreases depth, 0usize,
{
    match v {
        RawBsonRef::Double(bits) => Ok(Bson::Double(bits)),
        RawBsonRef::String(s) => Ok(Bson::String(s.to_owned())),
        RawBsonRef::Array(_) | RawBsonRef::Document(_) | RawBsonRef::JavaScriptCodeWithScope(_) => {
            if depth == 0 {
                return Err(OwnedError::TooDeep);
            }
            nested_from_raw(v, depth - 1)
        },
        RawBsonRef::Boolean(b) => Ok(Bson::Boolean(b)),
        RawBsonRef::Null => Ok(Bson::Null),
        RawBsonRef::RegularExpression(re) => Ok(Bson::RegularExpression(regex_from_raw(re))),
        RawBsonRef::JavaScriptCode(s) => Ok(Bson::JavaScriptCode(s.to_owned())),
        RawBsonRef::Int32(n) => Ok(Bson::Int32(n)),
        RawBsonRef::Int64(n) => Ok(Bson::Int64(n)),
        RawBsonRef::Timestamp(t) => Ok(Bson::Timestamp(t)),
        RawBsonRef::Binary(b) => Ok(Bson::Binary(b.to_binary())),
        RawBsonRef::ObjectId(o) => Ok(Bson::ObjectId(o)),
        RawBsonRef::DateTime(d) => Ok(Bson::DateTime(d)),
        RawBsonRef::Symbol(s) => Ok(Bson::Symbol(s.to_owned())),
        RawBsonRef::Decimal128(d) => Ok(Bson::Decimal128(d)),
        RawBsonRef::Undefined => Ok(Bson::Undefined),
        RawBsonRef::MaxKey => Ok(Bson::MaxKey),
        RawBsonRef::MinKey => Ok(Bson::MinKey),
        RawBsonRef::DbPointer(p) => Ok(Bson::DbPointer(DbPointer { namespace: p.namespace.to_owned(), id: p.id })),
    }
}

/// Reads every element of a borrowed document into an owned one, in order; a
/// repeated key keeps its first place and takes the later value.
#[verifier::rlimit(60)]
pub fn document_from_raw(d: RawDocument, depth: usize) -> (r: Result<Document, OwnedError>)
    ensures
        r is Ok <==> wf_from(d.bytes(), 4, depth as nat),
        r matches Ok(doc) ==> keys_unique(doc.entries@),
        r matches Ok(doc) ==> doc_matches(doc.entries@, d.bytes(), depth as nat),
        r matches Ok(doc) ==> (canon_from(d.bytes(), 4, depth as nat, false, 0) && keys_from(d.bytes(), 4).no_duplicates() ==> framed(
            entries_bytes(doc.entries@, depth as nat),
        ) == d.bytes() && entries_ok(doc.entries@, depth as nat)),
    decreases depth, 1usize,
{
    let n = d.as_bytes().len();
    let ghost b = d.bytes();
    let mut pos: usize = 4;
    let mut entries: Vec<(String, Bson)> = Vec::new();
    let ghost mut m: Seq<ElementModel> = Seq::empty();
    proof {
        assert(b.subrange(4, 4) =~= Seq::<u8>::empty());
    }
    while pos + 1 < n
        invariant
            n == b.len(),
            b == d.bytes(),
            doc_ok(b),
            4 <= pos < n,
            wf_from(b, 4, depth as nat) <==> wf_from(b, pos as int, depth as nat),
            keys_unique(entries@),
            doc_model(b, 4, Seq::empty()) == doc_model(b, pos as int, m),
            entries_model(entries@, m, b, depth as nat),
            canon_from(b, 4, depth as nat, false, 0) && keys_from(b, 4).no_duplicates() ==> canon_from(b, pos as int, depth as nat, false, entries@.len() as nat)
                && entries_bytes(entries@, depth as nat) == b.subrange(4, pos as int)
                && keys_from(b, 4) == entry_keys(entries@) + keys_from(b, pos as int)
                && entries_ok(entries@, depth as nat),
        decreases n - pos,
    {
        match d.element_at(pos) {
            Err(e) => {
                assert(!wf_from(b, pos as int, depth as nat));
                return Err(OwnedError::Raw(e));
            },
            Ok(None) => {
                assert(doc_model(b, pos as int, m) == m);
                return Ok(Document { entries });
            },
            Ok(Some(el)) => {
                let ghost old_entries = entries@;
                proof {
                    element_step(b, pos as int, el.key.spec_bytes(), el.value, el.next as int, depth as nat);
                }
                match bson_from_raw(el.value, depth) {
                    Ok(v) => {
                        let key = el.key.to_owned();
                        let ghost gv = v;
                        let ghost gk = key;
                        proof {
                            if canon_from(b, 4, depth as nat, false, 0) && keys_from(b, 4).no_duplicates() {
                                let e = pos + 1 + el.key.spec_bytes().len();
                                let kb = b.subrange(pos + 1, e);
                                assert(keys_from(b, pos as int) == seq![kb] + keys_from(b, el.next as int));
                                lemma_fresh_key(b, pos as int, el.next as int, kb, old_entries, gk);
                                element_step(b, pos as int, el.key.spec_bytes(), el.value, el.next as int, depth as nat);
                                let e = pos + 1 + el.key.spec_bytes().len();
                                assert(canon_value(b.subrange(e + 1, el.next as int), b[pos as int], depth as nat));
                                assert(bson_payload(gv, depth as nat) == raw_payload(el.value));
                            }
                        }
                        let ghost ki = key_index(old_entries, gk@);
                        let mut doc = Document { entries };
                        doc.insert(key, v);
                        entries = doc.entries;
                        proof {
                            let e = pos + 1 + el.key.spec_bytes().len();
                            let x: ElementModel = (b.subrange(pos + 1, e), b[pos as int], e + 1, el.next as int);
                            lemma_model_insert(old_entries, m, b, depth as nat, gk, gv, x, entries@);
                            assert(doc_model(b, pos as int, m) == doc_model(b, el.next as int, model_insert(m, x)));
                            m = model_insert(m, x);
                        }
                        proof {
                            if canon_from(b, 4, depth as nat, false, 0) && keys_from(b, 4).no_duplicates() {
                                assert(entries@ == old_entries.push((gk, gv)));
                                assert(entries@.drop_last() =~= old_entries);
                                assert(entry_keys(entries@) =~= entry_keys(old_entries.push((gk, Bson::Null))));
                                assert(entries@.last() == (gk, gv));
                                assert(entries_bytes(entries@, depth as nat) == entries_bytes(old_entries, depth as nat)
                                    + element_bytes(text(gk), gv, depth as nat));
                                assert(b.subrange(4, el.next as int) =~= b.subrange(4, pos as int) + b.subrange(pos as int, el.next as int));
                            }
                        }
                    },
                    Err(e) => return Err(e),
                }
                pos = el.next;
            },
        }
    }
    proof {
        if canon_from(b, 4, depth as nat, false, 0) && keys_from(b, 4).no_duplicates() {
            lemma_framed_doc(b);
        }
        assert(doc_model(b, pos as int, m) == m);
    }
    Ok(Document { entries })
}

/// Reads every value of a borrowed array, in order.
pub fn array_from_raw(a: RawArray, depth: usize) -> (r: Result<Vec<Bson>, OwnedError>)
    ensures
        r is Ok <==> wf_from(a.bytes(), 4, depth as nat),
        r matches Ok(items) ==> array_matches(items@, a.bytes(), depth as nat),
        r matches Ok(items) ==> (canon_from(a.bytes(), 4, depth as nat, true, 0) ==> framed(
            array_bytes(items@, depth as nat),
        ) == a.bytes() && array_ok(items@, depth as nat)),
    decreases depth, 1usize,
{
    let d = a.as_doc();
    let n = d.as_bytes().len();
    let ghost b = d.bytes();
    let mut pos: usize = 4;
    let mut items: Vec<Bson> = Vec::new();
    let ghost mut ma: Seq<(u8, int, int)> = Seq::empty();
    proof {
        assert(b.subrange(4, 4) =~= Seq::<u8>::empty());
    }
    while pos + 1 < n
        invariant
            n == b.len(),
            b == d.bytes(),
            b == a.bytes(),
            doc_ok(b),
            4 <= pos < n,
            wf_from(b, 4, depth as nat) <==> wf_from(b, pos as int, depth as nat),
            array_model(b, 4) == ma + array_model(b, pos as int),
            items@.len() == ma.len(),
            forall|i: int|
                0 <= i < items@.len() ==> owned_matches(#[trigger] items@[i], b.subrange(ma[i].1, ma[i].2), ma[i].0, depth as nat),
            canon_from(b, 4, depth as nat, true, 0) ==> canon_from(b, pos as int, depth as nat, true, items@.len() as nat)
                && array_bytes(items@, depth as nat) == b.subrange(4, pos as int)
                && array_ok(items@, depth as nat),
        decreases n - pos,
    {
        match d.element_at(pos) {
            Err(e) => {
                assert(!wf_from(b, pos as int, depth as nat));
                return Err(OwnedError::Raw(e));
            },
            Ok(None) => {
                assert(array_model(b, pos as int) =~= Seq::<(u8, int, int)>::empty());
                assert(ma + array_model(b, pos as int) =~= ma);
                return Ok(items);
            },
            Ok(Some(el)) => {
                let ghost old_items = items@;
                proof {
                    element_step(b, pos as int, el.key.spec_bytes(), el.value, el.next as int, depth as nat);
                }
                match bson_from_raw(el.value, depth) {
                    Ok(v) => {
                        let ghost gv = v;
                        proof {
                            if canon_from(b, 4, depth as nat, true, 0) {
                                element_step(b, pos as int, el.key.spec_bytes(), el.value, el.next as int, depth as nat);
                                let e = pos + 1 + el.key.spec_bytes().len();
                                assert(canon_value(b.subrange(e + 1, el.next as int), b[pos as int], depth as nat));
                                assert(bson_payload(gv, depth as nat) == raw_payload(el.value));
                            }
                        }
                        items.push(v);
                        proof {
                            let e = pos + 1 + el.key.spec_bytes().len();
                            let x = (b[pos as int], e + 1, el.next as int);
                            assert(array_model(b, pos as int) == seq![x] + array_model(b, el.next as int));
                            assert(ma + array_model(b, pos as int) =~= ma.push(x) + array_model(b, el.next as int));
                            assert(items@[old_items.len() as int] == gv);
                            assert forall|i: int| 0 <= i < old_items.len() implies items@[i] == old_items[i] by {}
                            ma = ma.push(x);
                        }
                        proof {
                            if canon_from(b, 4, depth as nat, true, 0) {
                                assert(items@.drop_last() =~= old_items);
                                assert(items@.last() == gv);
                                assert(el.key.spec_bytes() == decimal_digits(old_items.len()));
                                assert(array_bytes(items@, depth as nat) == array_bytes(old_items, depth as nat)
                                    + element_bytes(decimal_digits(old_items.len()), gv, depth as nat));
                                assert(b.subrange(4, el.next as int) =~= b.subrange(4, pos as int) + b.subrange(pos as int, el.next as int));
                            }
                        }
                    },
                    Err(e) => return Err(e),
                }
                pos = el.next;
            },
        }
    }
    proof {
        if canon_from(b, 4, depth as nat, true, 0) {
            lemma_framed_doc(b);
        }
    }
    proof {
        assert(array_model(b, pos as int) =~= Seq::<(u8, int, int)>::empty());
        assert(ma + array_model(b, pos as int) =~= ma);
    }
    Ok(items)
}

/// Reads document bytes into an owned document. Canonical bytes (sorted
/// regular-expression options, array keys "0", "1", ...) are exactly the bytes
/// that the document is written back as.
pub fn from_slice(bytes: &[u8]) -> (r: Result<Document, OwnedError>)
    ensures
        !doc_ok(bytes@) ==> r matches Err(OwnedError::Raw(_)),
        r is Ok <==> doc_ok(bytes@) && wf_from(bytes@, 4, MAX_NESTING as nat),
        doc_ok(bytes@) && canon_from(bytes@, 4, MAX_NESTING as nat, false, 0) ==> r is Ok,
        r matches Ok(doc) ==> keys_unique(doc.entries@),
        r matches Ok(doc) ==> doc_matches(doc.entries@, bytes@, MAX_NESTING as nat),
        r matches Ok(doc) ==> (canon_from(bytes@, 4, MAX_NESTING as nat, false, 0) && keys_from(bytes@, 4).no_duplicates() ==> document_bytes(
            doc,
            MAX_NESTING as nat,
        ) == bytes@ && document_ok(doc, MAX_NESTING as nat)),
{
    proof {
        if canon_from(bytes@, 4, MAX_NESTING as nat, false, 0) {
            lemma_canon_from_wf(bytes@, 4, MAX_NESTING as nat, false, 0);
        }
    }
    match RawDocument::from_bytes(bytes) {
        Ok(d) => document_from_raw(d, MAX_NESTING),
        Err(e) => Err(OwnedError::Raw(e)),
    }
}

/// The kind of an owned value.
pub open spec fn bson_kind(v: Bson) -> ElementType {
    match v {
        Bson::Double(_) => ElementType::Double,
        Bson::String(_) => ElementType::String,
        Bson::Array(_) => ElementType::Array,
        Bson::Document(_) => ElementType::EmbeddedDocument,
        Bson::Boolean(_) => ElementType::Boolean,
        Bson::Null => ElementType::Null,
        Bson::RegularExpression(_) => ElementType::RegularExpression,
        Bson::JavaScriptCode(_) => ElementType::JavaScriptCode,
        Bson::JavaScriptCodeWithScope(_) => ElementType::JavaScriptCodeWithScope,
        Bson::Int32(_) => ElementType::Int32,
        Bson::Int64(_) => ElementType::Int64,
        Bson::Timestamp(_) => ElementType::Timestamp,
        Bson::Binary(_) => ElementType::Binary,
        Bson::ObjectId(_) => ElementType::ObjectId,
        Bson::DateTime(_) => ElementType::DateTime,
        Bson::Symbol(_) => ElementType::Symbol,
        Bson::Decimal128(_) => ElementType::Decimal128,
        Bson::Undefined => ElementType::Undefined,
        Bson::MaxKey => ElementType::MaxKey,
        Bson::MinKey => ElementType::MinKey,
        Bson::DbPointer(_) => ElementType::DbPointer,
    }
}

/// The UTF-8 bytes of a string.
pub open spec fn text(s: String) -> Seq<u8> {
    encode_utf8(s@)
}

/// The decimal digits of `n`, most significant first.
pub open spec fn decimal_digits(n: nat) -> Seq<u8>
    decreases n,
{
    if n < 10 {
        seq![(48 + n) as u8]
    } else {
        decimal_digits(n / 10) + seq![(48 + n % 10) as u8]
    }
}

/// A document around its element bytes: the length, the elements, a nul.
pub open spec fn framed(body: Seq<u8>) -> Seq<u8> {
    i32_bytes((body.len() + 5) as i32) + body + seq![0u8]
}

/// The bytes of an owned binary payload, with the legacy inner length where its subtype has one.
pub open spec fn binary_bytes(b: Binary) -> Seq<u8> {
    let n = if b.subtype == BinarySubtype::BinaryOld {
        b.bytes@.len() + 4int
    } else {
        b.bytes@.len() as int
    };
    i32_bytes(n as i32) + seq![subtype_byte(b.subtype)] + (if b.subtype == BinarySubtype::BinaryOld {
        i32_bytes(b.bytes@.len() as i32)
    } else {
        Seq::empty()
    }) + b.bytes@
}

/// The bytes that an owned value is written as after its tag and key; nested
/// documents count against `fuel`.
pub open spec fn bson_payload(v: Bson, fuel: nat) -> Seq<u8>
    decreases fuel, 0nat,
{
    match v {
        Bson::Double(bits) => u64_bytes(bits),
        Bson::String(s) => string_bytes(text(s)),
        Bson::Array(a) => if fuel == 0 {
            Seq::empty()
        } else {
            framed(array_bytes(a@, (fuel - 1) as nat))
        },
        Bson::Document(d) => if fuel == 0 {
            Seq::empty()
        } else {
            framed(entries_bytes(d.entries@, (fuel - 1) as nat))
        },
        Bson::Boolean(b) => seq![if b { 1u8 } else { 0u8 }],
        Bson::Null => Seq::empty(),
        Bson::RegularExpression(re) => cstring_bytes(text(re.pattern)) + cstring_bytes(text(re.options)),
        Bson::JavaScriptCode(s) => string_bytes(text(s)),
        Bson::JavaScriptCodeWithScope(c) => if fuel == 0 {
            Seq::empty()
        } else {
            let scope = framed(entries_bytes(c.scope.entries@, (fuel - 1) as nat));
            i32_bytes((4 + string_bytes(text(c.code)).len() + scope.len()) as i32) + string_bytes(
                text(c.code),
            ) + scope
        },
        Bson::Int32(i) => i32_bytes(i),
        Bson::Int64(i) => i64_bytes(i),
        Bson::Timestamp(t) => u32_bytes(t.increment) + u32_bytes(t.time),
        Bson::Binary(b) => binary_bytes(b),
        Bson::ObjectId(o) => o.bytes@,
        Bson::DateTime(d) => i64_bytes(d.millis),
        Bson::Symbol(s) => string_bytes(text(s)),
        Bson::Decimal128(d) => d.bytes@,
        Bson::Undefined => Seq::empty(),
        Bson::MaxKey => Seq::empty(),
        Bson::MinKey => Seq::empty(),
        Bson::DbPointer(p) => string_bytes(text(p.namespace)) + p.id.bytes@,
    }
}

/// The bytes of an element: its tag, its key, its payload.
pub open spec fn element_bytes(key: Seq<u8>, v: Bson, fuel: nat) -> Seq<u8>
    decreases fuel, 1nat,
{
    seq![type_tag(bson_kind(v))] + cstring_bytes(key) + bson_payload(v, fuel)
}

/// The bytes of a document's elements, in order.
pub open spec fn entries_bytes(e: Seq<(String, Bson)>, fuel: nat) -> Seq<u8>
    decreases fuel, e.len() + 2,
{
    if e.len() == 0 {
        Seq::empty()
    } else {
        entries_bytes(e.drop_last(), fuel) + element_bytes(text(e.last().0), e.last().1, fuel)
    }
}

/// The bytes of an array's elements, keyed "0", "1", ...
pub open spec fn array_bytes(a: Seq<Bson>, fuel: nat) -> Seq<u8>
    decreases fuel, a.len() + 2,
{
    if a.len() == 0 {
        Seq::empty()
    } else {
        array_bytes(a.drop_last(), fuel) + element_bytes(decimal_digits((a.len() - 1) as nat), a.last(), fuel)
    }
}

/// The bytes of a whole document.
pub open spec fn document_bytes(d: Document, fuel: nat) -> Seq<u8> {
    framed(entries_bytes(d.entries@, fuel))
}

/// The value can be written within `fuel` levels of nesting: keys and regular
/// expressions hold no nul, and every length fits its prefix.
pub open spec fn payload_ok(v: Bson, fuel: nat) -> bool
    decreases fuel, 0nat,
{
    match v {
        Bson::String(s) => text(s).len() < i32::MAX,
        Bson::JavaScriptCode(s) => text(s).len() < i32::MAX,
        Bson::Symbol(s) => text(s).len() < i32::MAX,
        Bson::Array(a) => fuel > 0 && array_ok(a@, (fuel - 1) as nat) && array_bytes(a@, (fuel - 1) as nat).len()
            <= i32::MAX - 5,
        Bson::Document(d) => fuel > 0 && entries_ok(d.entries@, (fuel - 1) as nat) && entries_bytes(
            d.entries@,
            (fuel - 1) as nat,
        ).len() <= i32::MAX - 5,
        Bson::RegularExpression(re) => no_nul(text(re.pattern)) && no_nul(text(re.options)),
        Bson::JavaScriptCodeWithScope(c) => {
            let body = entries_bytes(c.scope.entries@, (fuel - 1) as nat);
            &&& fuel > 0
            &&& entries_ok(c.scope.entries@, (fuel - 1) as nat)
            &&& body.len() <= i32::MAX - 5
            &&& text(c.code).len() < i32::MAX - 9
            &&& body.len() + 5 <= i32::MAX - 9 - text(c.code).len()
        },
        Bson::Binary(b) => b.bytes@.len() + (if b.subtype == BinarySubtype::BinaryOld {
            4int
        } else {
            0int
        }) <= i32::MAX,
        Bson::DbPointer(p) => text(p.namespace).len() < i32::MAX,
        _ => true,
    }
}

/// Every element of a document can be written.
pub open spec fn entries_ok(e: Seq<(String, Bson)>, fuel: nat) -> bool
    decreases fuel, e.len() + 2,
{
    e.len() == 0 || (entries_ok(e.drop_last(), fuel) && no_nul(text(e.last().0)) && payload_ok(
        e.last().1,
        fuel,
    ))
}

/// Every element of an array can be written.
pub open spec fn array_ok(a: Seq<Bson>, fuel: nat) -> bool
    decreases fuel, a.len() + 2,
{
    a.len() == 0 || (array_ok(a.drop_last(), fuel) && payload_ok(a.last(), fuel))
}

/// The document can be written within `fuel` levels of nesting.
pub open spec fn document_ok(d: Document, fuel: nat) -> bool {
    entries_ok(d.entries@, fuel) && entries_bytes(d.entries@, fuel).len() <= i32::MAX - 5
}

/// Every prefix of writable entries is writable.
proof fn lemma_entries_ok_prefix(e: Seq<(String, Bson)>, k: int, fuel: nat)
    requires
        0 <= k <= e.len(),
        entries_ok(e, fuel),
    ensures
        entries_ok(e.subrange(0, k), fuel),
    decreases e.len() - k,
{
    if k < e.len() {
        assert(e.drop_last() =~= e.subrange(0, e.len() - 1));
        lemma_entries_ok_prefix(e.drop_last(), k, fuel);
        assert(e.drop_last().subrange(0, k) =~= e.subrange(0, k));
    } else {
        assert(e.subrange(0, k) =~= e);
    }
}

/// Every prefix of a writable array is writable.
proof fn lemma_array_ok_prefix(a: Seq<Bson>, k: int, fuel: nat)
    requires
        0 <= k <= a.len(),
        array_ok(a, fuel),
    ensures
        array_ok(a.subrange(0, k), fuel),
    decreases a.len() - k,
{
    if k < a.len() {
        assert(a.drop_last() =~= a.subrange(0, a.len() - 1));
        lemma_array_ok_prefix(a.drop_last(), k, fuel);
        assert(a.drop_last().subrange(0, k) =~= a.subrange(0, k));
    } else {
        assert(a.subrange(0, k) =~= a);
    }
}

/// Appends the decimal digits of `n`.
pub fn write_decimal(dest: &mut Vec<u8>, n: usize)
    ensures
        final(dest)@ == old(dest)@ + decimal_digits(n as nat),
    decreases n,
{
    if n >= 10 {
        write_decimal(dest, n / 10);
    }
    dest.push((48 + n % 10) as u8);
    assert(final(dest)@ =~= old(dest)@ + decimal_digits(n as nat));
}

/// Whether the bytes hold a nul.
fn has_nul(b: &[u8]) -> (r: bool)
    ensures
        r == !no_nul(b@),
{
    let mut i: usize = 0;
    while i < b.len()
        invariant
            0 <= i <= b@.len(),
            forall|k: int| 0 <= k < i ==> b@[k] != 0,
        decreases b@.len() - i,
    {
        if b[i] == 0 {
            return true;
        }
        i = i + 1;
    }
    false
}

/// Writes a C-string key, refusing one that holds a nul.
fn write_key(dest: &mut Vec<u8>, k: &str) -> (r: Result<(), OwnedError>)
    ensures
        r is Ok <==> no_nul(k.spec_bytes()),
        r is Ok ==> final(dest)@ == old(dest)@ + cstring_bytes(k.spec_bytes()),
{
    if has_nul(k.as_bytes()) {
        return Err(OwnedError::KeyHasNul);
    }
    write_cstring(dest, k);
    Ok(())
}

/// Writes a length-prefixed string, refusing one too long for its prefix.
fn write_text(dest: &mut Vec<u8>, s: &str) -> (r: Result<(), OwnedError>)
    ensures
        r is Ok <==> s.spec_bytes().len() < i32::MAX,
        r is Ok ==> final(dest)@ == old(dest)@ + string_bytes(s.spec_bytes()),
{
    if s.as_bytes().len() >= i32::MAX as usize {
        return Err(OwnedError::TooLarge);
    }
    write_string(dest, s);
    Ok(())
}

/// Writes the framed bytes that `body` holds: its length first, a nul last.
fn write_framed(dest: &mut Vec<u8>, body: &Vec<u8>) -> (r: Result<(), OwnedError>)
    ensures
        r is Ok <==> body@.len() <= i32::MAX - 5,
        r is Ok ==> final(dest)@ == old(dest)@ + framed(body@),
{
    if body.len() > (i32::MAX as usize) - 5 {
        return Err(OwnedError::TooLarge);
    }
    write_i32(dest, (body.len() + 5) as i32);
    write_bytes(dest, body.as_slice());
    dest.push(0u8);
    assert(final(dest)@ =~= old(dest)@ + framed(body@));
    Ok(())
}

/// Writes the payload of an owned value.
pub fn write_payload(dest: &mut Vec<u8>, v: &Bson, fuel: usize) -> (r: Result<(), OwnedError>)
    ensures
        r is Ok <==> payload_ok(*v, fuel as nat),
        r is Ok ==> final(dest)@ == old(dest)@ + bson_payload(*v, fuel as nat),
    decreases fuel, 0usize,
{
    match v {
        Bson::Double(bits) => write_u64(dest, *bits),
        Bson::String(s) => return write_text(dest, s.as_str()),
        Bson::Array(a) => {
            if fuel == 0 {
                return Err(OwnedError::TooDeep);
            }
            let mut body: Vec<u8> = Vec::new();
            match write_array_body(&mut body, a, fuel - 1) {
                Ok(()) => {},
                Err(e) => return Err(e),
            }
            return write_framed(dest, &body);
        },
        Bson::Document(d) => {
            if fuel == 0 {
                return Err(OwnedError::TooDeep);
            }
            let mut body: Vec<u8> = Vec::new();
            match write_entries(&mut body, &d.entries, fuel - 1) {
                Ok(()) => {},
                Err(e) => return Err(e),
            }
            return write_framed(dest, &body);
        },
        Bson::Boolean(b) => dest.push(if *b { 1u8 } else { 0u8 }),
        Bson::Null | Bson::Undefined | Bson::MaxKey | Bson::MinKey => {},
        Bson::RegularExpression(re) => {
            match write_key(dest, re.pattern.as_str()) {
                Ok(()) => {},
                Err(e) => return Err(e),
            }
            match write_key(dest, re.options.as_str()) {
                Ok(()) => {},
                Err(e) => return Err(e),
            }
        },
        Bson::JavaScriptCode(s) => return write_text(dest, s.as_str()),
        Bson::JavaScriptCodeWithScope(c) => {
            if fuel == 0 {
                return Err(OwnedError::TooDeep);
            }
            let mut body: Vec<u8> = Vec::new();
            match write_entries(&mut body, &c.scope.entries, fuel - 1) {
                Ok(()) => {},
                Err(e) => return Err(e),
            }
            let mut scope: Vec<u8> = Vec::new();
            match write_framed(&mut scope, &body) {
                Ok(()) => {},
                Err(e) => return Err(e),
            }
            let code = c.code.as_str();
            let n = code.as_bytes().len();
            if n >= (i32::MAX as usize) - 9 || scope.len() > (i32::MAX as usize) - 9 - n {
                return Err(OwnedError::TooLarge);
            }
            write_i32(dest, (4 + 4 + n + 1 + scope.len()) as i32);
            write_string(dest, code);
            write_bytes(dest, scope.as_slice());
        },
        Bson::Int32(i) => write_i32(dest, *i),
        Bson::Int64(i) => write_i64(dest, *i),
        Bson::Timestamp(t) => {
            write_u32(dest, t.increment);
            write_u32(dest, t.time);
        },
        Bson::Binary(b) => {
            let limit: usize = if b.subtype == BinarySubtype::BinaryOld {
                (i32::MAX as usize) - 4
            } else {
                i32::MAX as usize
            };
            if b.bytes.len() > limit {
                return Err(OwnedError::TooLarge);
            }
            b.as_raw_binary().append_to_payload(dest);
        },
        Bson::ObjectId(o) => write_bytes(dest, o.bytes.as_slice()),
        Bson::DateTime(d) => write_i64(dest, d.millis),
        Bson::Symbol(s) => return write_text(dest, s.as_str()),
        Bson::Decimal128(d) => write_bytes(dest, d.bytes.as_slice()),
        Bson::DbPointer(p) => {
            match write_text(dest, p.namespace.as_str()) {
                Ok(()) => {},
                Err(e) => return Err(e),
            }
            write_bytes(dest, p.id.bytes.as_slice());
        },
    }
    assert(final(dest)@ =~= old(dest)@ + bson_payload(*v, fuel as nat));
    Ok(())
}

/// Writes one element: tag, key, payload.
fn write_element(dest: &mut Vec<u8>, key: &str, v: &Bson, fuel: usize) -> (r: Result<(), OwnedError>)
    ensures
        r is Ok <==> no_nul(key.spec_bytes()) && payload_ok(*v, fuel as nat),
        r is Ok ==> final(dest)@ == old(dest)@ + element_bytes(key.spec_bytes(), *v, fuel as nat),
    decreases fuel, 1usize,
{
    dest.push(bson_element_type(v).tag());
    match write_key(dest, key) {
        Ok(()) => {},
        Err(e) => return Err(e),
    }
    match write_payload(dest, v, fuel) {
        Ok(()) => {},
        Err(e) => return Err(e),
    }
    assert(final(dest)@ =~= old(dest)@ + element_bytes(key.spec_bytes(), *v, fuel as nat));
    Ok(())
}

/// Writes a document's elements, in order.
fn write_entries(dest: &mut Vec<u8>, e: &Vec<(String, Bson)>, fuel: usize) -> (r: Result<(), OwnedError>)
    ensures
        r is Ok <==> entries_ok(e@, fuel as nat),
        r is Ok ==> final(dest)@ == old(dest)@ + entries_bytes(e@, fuel as nat),
    decreases fuel, 2usize,
{
    let mut i: usize = 0;
    while i < e.len()
        invariant
            0 <= i <= e@.len(),
            dest@ == old(dest)@ + entries_bytes(e@.subrange(0, i as int), fuel as nat),
            entries_ok(e@.subrange(0, i as int), fuel as nat),
        decreases e@.len() - i,
    {
        match write_element(dest, e[i].0.as_str(), &e[i].1, fuel) {
            Ok(()) => {},
            Err(err) => {
                proof {
                    if entries_ok(e@, fuel as nat) {
                        lemma_entries_ok_prefix(e@, i as int + 1, fuel as nat);
                        assert(e@.subrange(0, i + 1).drop_last() =~= e@.subrange(0, i as int));
                        assert(e@.subrange(0, i + 1).last() == e@[i as int]);
                    }
                }
                return Err(err);
            },
        }
        assert(e@.subrange(0, i + 1).drop_last() =~= e@.subrange(0, i as int));
        i = i + 1;
    }
    assert(e@.subrange(0, i as int) =~= e@);
    Ok(())
}

/// Writes an array's elements, keyed "0", "1", ...
fn write_array_body(dest: &mut Vec<u8>, a: &Vec<Bson>, fuel: usize) -> (r: Result<(), OwnedError>)
    ensures
        r is Ok <==> array_ok(a@, fuel as nat),
        r is Ok ==> final(dest)@ == old(dest)@ + array_bytes(a@, fuel as nat),
    decreases fuel, 2usize,
{
    let mut i: usize = 0;
    while i < a.len()
        invariant
            0 <= i <= a@.len(),
            dest@ == old(dest)@ + array_bytes(a@.subrange(0, i as int), fuel as nat),
            array_ok(a@.subrange(0, i as int), fuel as nat),
        decreases a@.len() - i,
    {
        let ghost before = dest@;
        dest.push(bson_element_type(&a[i]).tag());
        write_decimal(dest, i);
        dest.push(0u8);
        match write_payload(dest, &a[i], fuel) {
            Ok(()) => {},
            Err(err) => {
                proof {
                    if array_ok(a@, fuel as nat) {
                        lemma_array_ok_prefix(a@, i as int + 1, fuel as nat);
                        assert(a@.subrange(0, i + 1).drop_last() =~= a@.subrange(0, i as int));
                        assert(a@.subrange(0, i + 1).last() == a@[i as int]);
                    }
                }
                return Err(err);
            },
        }
        assert(dest@ =~= before + element_bytes(decimal_digits(i as nat), a@[i as int], fuel as nat));
        assert(a@.subrange(0, i + 1).drop_last() =~= a@.subrange(0, i as int));
        assert(a@.subrange(0, i + 1).last() == a@[i as int]);
        assert(dest@ =~= old(dest)@ + array_bytes(a@.subrange(0, i + 1), fuel as nat));
        i = i + 1;
    }
    assert(a@.subrange(0, i as int) =~= a@);
    Ok(())
}

/// The kind of an owned value.
pub fn bson_element_type(v: &Bson) -> (r: ElementType)
    ensures
        r == bson_kind(*v),
{
    match v {
        Bson::Double(_) => ElementType::Double,
        Bson::String(_) => ElementType::String,
        Bson::Array(_) => ElementType::Array,
        Bson::Document(_) => ElementType::EmbeddedDocument,
        Bson::Boolean(_) => ElementType::Boolean,
        Bson::Null => ElementType::Null,
        Bson::RegularExpression(_) => ElementType::RegularExpression,
        Bson::JavaScriptCode(_) => ElementType::JavaScriptCode,
        Bson::JavaScriptCodeWithScope(_) => ElementType::JavaScriptCodeWithScope,
        Bson::Int32(_) => ElementType::Int32,
        Bson::Int64(_) => ElementType::Int64,
        Bson::Timestamp(_) => ElementType::Timestamp,
        Bson::Binary(_) => ElementType::Binary,
        Bson::ObjectId(_) => ElementType::ObjectId,
        Bson::DateTime(_) => ElementType::DateTime,
        Bson::Symbol(_) => ElementType::Symbol,
        Bson::Decimal128(_) => ElementType::Decimal128,
        Bson::Undefined => ElementType::Undefined,
        Bson::MaxKey => ElementType::MaxKey,
        Bson::MinKey => ElementType::MinKey,
        Bson::DbPointer(_) => ElementType::DbPointer,
    }
}

impl Document {
    /// Writes the document's bytes, nesting at most `MAX_NESTING` deep. Keys with
    /// a nul and values too large for a length prefix are refused.
    pub fn to_vec(&self) -> (r: Result<Vec<u8>, OwnedError>)
        ensures
            r is Ok <==> document_ok(*self, MAX_NESTING as nat),
            r matches Ok(b) ==> b@ == document_bytes(*self, MAX_NESTING as nat),
    {
        let mut body: Vec<u8> = Vec::new();
        match write_entries(&mut body, &self.entries, MAX_NESTING) {
            Ok(()) => {},
            Err(e) => return Err(e),
        }
        let mut out: Vec<u8> = Vec::new();
        match write_framed(&mut out, &body) {
            Ok(()) => {},
            Err(e) => return Err(e),
        }
        assert(out@ =~= document_bytes(*self, MAX_NESTING as nat));
        Ok(out)
    }
}

} // verus!
