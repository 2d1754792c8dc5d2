//! Little-endian integers, C-strings and length-prefixed strings.
use vstd::prelude::*;
use vstd::slice::slice_subrange;
use vstd::string::StringSliceAdditionalSpecFns;
use vstd::utf8::valid_utf8;

verus! {

/// The unsigned 32-bit value of the four bytes at `i`, least significant first.
pub open spec fn le_u32(b: Seq<u8>, i: int) -> u32 {
    (b[i] as u32) | ((b[i + 1] as u32) << 8u32) | ((b[i + 2] as u32) << 16u32) | ((b[i + 3] as u32)
        << 24u32)
}

/// The signed 32-bit value of the four bytes at `i`.
pub open spec fn le_i32(b: Seq<u8>, i: int) -> i32 {
    le_u32(b, i) as i32
}

/// The unsigned 64-bit value of the eight bytes at `i`, least significant first.
pub open spec fn le_u64(b: Seq<u8>, i: int) -> u64 {
    (le_u32(b, i) as u64) | ((le_u32(b, i + 4) as u64) << 32u64)
}

/// The signed 64-bit value of the eight bytes at `i`.
pub open spec fn le_i64(b: Seq<u8>, i: int) -> i64 {
    le_u64(b, i) as i64
}

/// The four bytes of `u`, least significant first.
pub open spec fn u32_bytes(u: u32) -> Seq<u8> {
    seq![
        (u & 0xff) as u8,
        ((u >> 8u32) & 0xff) as u8,
        ((u >> 16u32) & 0xff) as u8,
        ((u >> 24u32) & 0xff) as u8,
    ]
}

pub open spec fn i32_bytes(v: i32) -> Seq<u8> {
    u32_bytes(v as u32)
}

/// The eight bytes of `u`, least significant first.
pub open spec fn u64_bytes(u: u64) -> Seq<u8> {
    u32_bytes((u & 0xffff_ffff) as u32) + u32_bytes((u >> 32u64) as u32)
}

pub open spec fn i64_bytes(v: i64) -> Seq<u8> {
    u64_bytes(v as u64)
}

/// `end` is the first nul byte at or after `start`.
pub open spec fn cstr_end(b: Seq<u8>, start: int, end: int) -> bool {
    0 <= start <= end < b.len() && b[end] == 0 && forall|k: int| start <= k < end ==> b[k] != 0
}

/// The bytes of a C-string: UTF-8 followed by a nul.
pub open spec fn cstring_bytes(s: Seq<u8>) -> Seq<u8> {
    s + seq![0u8]
}

/// The bytes of a length-prefixed string: its length with the nul, the UTF-8, a nul.
pub open spec fn string_bytes(s: Seq<u8>) -> Seq<u8> {
    i32_bytes((s.len() + 1) as i32) + s + seq![0u8]
}

pub proof fn lemma_u32_round_trip(u: u32)
    ensures
        le_u32(u32_bytes(u), 0) == u,
{
    let b = u32_bytes(u);
    let b0 = (u & 0xff) as u8;
    let b1 = ((u >> 8u32) & 0xff) as u8;
    let b2 = ((u >> 16u32) & 0xff) as u8;
    let b3 = ((u >> 24u32) & 0xff) as u8;
    assert(b[0] == b0 && b[1] == b1 && b[2] == b2 && b[3] == b3);
    assert((b0 as u32) | ((b1 as u32) << 8u32) | ((b2 as u32) << 16u32) | ((b3 as u32) << 24u32)
        == u) by (bit_vector)
        requires
            b0 == (u & 0xff) as u8,
            b1 == ((u >> 8u32) & 0xff) as u8,
            b2 == ((u >> 16u32) & 0xff) as u8,
            b3 == ((u >> 24u32) & 0xff) as u8,
    ;
}

/// Reading back the four bytes written for an `i32` gives the same value.
pub proof fn lemma_i32_round_trip(v: i32)
    ensures
        le_i32(i32_bytes(v), 0) == v,
        i32_bytes(v).len() == 4,
{
    lemma_u32_round_trip(v as u32);
    assert((v as u32) as i32 == v) by (bit_vector);
}

/// Reading back the eight bytes written for an `i64` gives the same value.
pub proof fn lemma_i64_round_trip(v: i64)
    ensures
        le_i64(i64_bytes(v), 0) == v,
        i64_bytes(v).len() == 8,
{
    let u = v as u64;
    let lo = (u & 0xffff_ffff) as u32;
    let hi = (u >> 32u64) as u32;
    let b = i64_bytes(v);
    lemma_u32_round_trip(lo);
    lemma_u32_round_trip(hi);
    assert(b.subrange(0, 4) =~= u32_bytes(lo));
    assert(b.subrange(4, 8) =~= u32_bytes(hi));
    assert(le_u32(b, 0) == le_u32(u32_bytes(lo), 0));
    assert(le_u32(b, 4) == le_u32(u32_bytes(hi), 0));
    assert(((lo as u64) | ((hi as u64) << 32u64)) == u) by (bit_vector)
        requires
            lo == (u & 0xffff_ffff) as u32,
            hi == (u >> 32u64) as u32,
    ;
    assert((u as i64) == v) by (bit_vector)
        requires
            u == v as u64,
    ;
}

/// Reads the byte at `pos`.
pub fn read_u8(buf: &[u8], pos: usize) -> (r: Option<u8>)
    ensures
        r == (if pos < buf@.len() {
            Some(buf@[pos as int])
        } else {
            None::<u8>
        }),
{
    if pos < buf.len() {
        Some(buf[pos])
    } else {
        None
    }
}

/// Reads four little-endian bytes at `pos` as an unsigned value.
pub fn read_u32(buf: &[u8], pos: usize) -> (r: Option<u32>)
    ensures
        r == (if pos + 4 <= buf@.len() {
            Some(le_u32(buf@, pos as int))
        } else {
            None::<u32>
        }),
{
    if pos > buf.len() || buf.len() - pos < 4 {
        return None;
    }
    let u: u32 = (buf[pos] as u32) | ((buf[pos + 1] as u32) << 8u32) | ((buf[pos + 2] as u32)
        << 16u32) | ((buf[pos + 3] as u32) << 24u32);
    Some(u)
}

/// Reads four little-endian bytes at `pos` as a signed value.
pub fn read_i32(buf: &[u8], pos: usize) -> (r: Option<i32>)
    ensures
        r == (if pos + 4 <= buf@.len() {
            Some(le_i32(buf@, pos as int))
        } else {
            None::<i32>
        }),
{
    match read_u32(buf, pos) {
        Some(u) => Some(u as i32),
        None => None,
    }
}

/// Reads eight little-endian bytes at `pos` as an unsigned value.
pub fn read_u64(buf: &[u8], pos: usize) -> (r: Option<u64>)
    ensures
        r == (if pos + 8 <= buf@.len() {
            Some(le_u64(buf@, pos as int))
        } else {
            None::<u64>
        }),
{
    if pos > buf.len() || buf.len() - pos < 8 {
        return None;
    }
    let lo = read_u32(buf, pos).unwrap();
    let hi = read_u32(buf, pos + 4).unwrap();
    Some((lo as u64) | ((hi as u64) << 32u64))
}

/// Reads eight little-endian bytes at `pos` as a signed value.
pub fn read_i64(buf: &[u8], pos: usize) -> (r: Option<i64>)
    ensures
        r == (if pos + 8 <= buf@.len() {
            Some(le_i64(buf@, pos as int))
        } else {
            None::<i64>
        }),
{
    match read_u64(buf, pos) {
        Some(u) => Some(u as i64),
        None => None,
    }
}

/// Appends the four bytes of `u`.
pub fn write_u32(dest: &mut Vec<u8>, u: u32)
    ensures
        final(dest)@ == old(dest)@ + u32_bytes(u),
{
    dest.push((u & 0xff) as u8);
    dest.push(((u >> 8u32) & 0xff) as u8);
    dest.push(((u >> 16u32) & 0xff) as u8);
    dest.push(((u >> 24u32) & 0xff) as u8);
    assert(dest@ =~= old(dest)@ + u32_bytes(u));
}

/// Appends the four bytes of `v`.
pub fn write_i32(dest: &mut Vec<u8>, v: i32)
    ensures
        final(dest)@ == old(dest)@ + i32_bytes(v),
{
    write_u32(dest, v as u32);
}

/// Appends the eight bytes of `u`.
pub fn write_u64(dest: &mut Vec<u8>, u: u64)
    ensures
        final(dest)@ == old(dest)@ + u64_bytes(u),
{
    write_u32(dest, (u & 0xffff_ffff) as u32);
    write_u32(dest, (u >> 32u64) as u32);
    assert(final(dest)@ =~= old(dest)@ + u64_bytes(u));
}

/// Appends the eight bytes of `v`.
pub fn write_i64(dest: &mut Vec<u8>, v: i64)
    ensures
        final(dest)@ == old(dest)@ + i64_bytes(v),
{
    write_u64(dest, v as u64);
}

/// Appends every byte of `src`.
pub fn write_bytes(dest: &mut Vec<u8>, src: &[u8])
    ensures
        final(dest)@ == old(dest)@ + src@,
{
    let mut i: usize = 0;
    while i < src.len()
        invariant
            0 <= i <= src@.len(),
            dest@ == old(dest)@ + src@.subrange(0, i as int),
        decreases src@.len() - i,
    {
        dest.push(src[i]);
        i = i + 1;
        assert(dest@ =~= old(dest)@ + src@.subrange(0, i as int));
    }
    assert(src@.subrange(0, i as int) =~= src@);
}

/// Appends a C-string: the bytes of `s` and a nul. `s` holds no nul.
pub fn write_cstring(dest: &mut Vec<u8>, s: &str)
    requires
        forall|k: int| 0 <= k < s.spec_bytes().len() ==> s.spec_bytes()[k] != 0,
    ensures
        final(dest)@ == old(dest)@ + cstring_bytes(s.spec_bytes()),
{
    write_bytes(dest, s.as_bytes());
    dest.push(0u8);
    assert(final(dest)@ =~= old(dest)@ + cstring_bytes(s.spec_bytes()));
}

/// Appends a length-prefixed string.
pub fn write_string(dest: &mut Vec<u8>, s: &str)
    requires
        s.spec_bytes().len() + 1 <= i32::MAX,
    ensures
        final(dest)@ == old(dest)@ + string_bytes(s.spec_bytes()),
{
    let b = s.as_bytes();
    write_i32(dest, (b.len() + 1) as i32);
    write_bytes(dest, b);
    dest.push(0u8);
    assert(final(dest)@ =~= old(dest)@ + string_bytes(s.spec_bytes()));
}

/// Finds the first nul byte at or after `start`.
pub fn find_nul(buf: &[u8], start: usize) -> (r: Option<usize>)
    ensures
        match r {
            Some(e) => cstr_end(buf@, start as int, e as int),
            None => forall|e: int| !cstr_end(buf@, start as int, e),
        },
{
    let mut i: usize = start;
    if start > buf.len() {
        return None;
    }
    while i < buf.len()
        invariant
            start <= i <= buf@.len(),
            forall|k: int| start <= k < i ==> buf@[k] != 0,
        decreases buf@.len() - i,
    {
        if buf[i] == 0 {
            return Some(i);
        }
        i = i + 1;
    }
    None
}

/// Relies on std::str::from_utf8: it accepts exactly well-formed UTF-8 and
/// borrows the bytes unchanged.
#[verifier::external_body]
fn str_from_utf8<'a>(b: &'a [u8]) -> (r: Option<&'a str>)
    ensures
        match r {
            Some(s) => valid_utf8(b@) && s.spec_bytes() == b@,
            None => !valid_utf8(b@),
        },
{
    std::str::from_utf8(b).ok()
}

/// Checks that `b` is UTF-8 and borrows it as text.
pub fn utf8_str<'a>(b: &'a [u8]) -> (r: Option<&'a str>)
    ensures
        match r {
            Some(s) => valid_utf8(b@) && s.spec_bytes() == b@,
            None => !valid_utf8(b@),
        },
{
    str_from_utf8(b)
}

/// Reads the C-string at `start`: the text before the first nul, and the
/// position after that nul.
pub fn read_cstring<'a>(buf: &'a [u8], start: usize) -> (r: Option<(&'a str, usize)>)
    ensures
        match r {
            Some((s, next)) => cstr_end(buf@, start as int, next - 1) && s.spec_bytes()
                == buf@.subrange(start as int, next - 1) && valid_utf8(s.spec_bytes()),
            None => forall|e: int|
                cstr_end(buf@, start as int, e) ==> !valid_utf8(buf@.subrange(start as int, e)),
        },
{
    match find_nul(buf, start) {
        None => None,
        Some(e) => {
            let text = slice_subrange(buf, start, e);
            match str_from_utf8(text) {
                Some(s) => {
                    assert(e < buf.len());
                    Some((s, e + 1))
                },
                None => {
                    assert forall|e2: int| cstr_end(buf@, start as int, e2) implies e2
                        == e as int by {
                        if e2 < e {
                            assert(buf@[e2] != 0);
                        } else if e2 > e {
                            assert(buf@[e as int] != 0);
                        }
                    }
                    None
                },
            }
        },
    }
}

/// The declared length of the string at `start` (its bytes and the nul).
pub open spec fn string_len_at(b: Seq<u8>, start: int) -> int {
    le_i32(b, start) as int
}

/// A well-formed length-prefixed string starts at `start`.
pub open spec fn string_ok(b: Seq<u8>, start: int) -> bool {
    let n = string_len_at(b, start);
    0 <= start && start + 4 <= b.len() && n >= 1 && start + 4 + n <= b.len() && b[start + 4 + n
        - 1] == 0 && valid_utf8(b.subrange(start + 4, start + 4 + n - 1))
}

/// Reads the length-prefixed string at `start` and the position after it.
pub fn read_string<'a>(buf: &'a [u8], start: usize) -> (r: Option<(&'a str, usize)>)
    ensures
        r is Some <==> string_ok(buf@, start as int),
        match r {
            Some((s, next)) => {
                &&& next == start + 4 + string_len_at(buf@, start as int)
                &&& buf@.subrange(start as int, next as int) == string_bytes(s.spec_bytes())
                &&& s.spec_bytes() == buf@.subrange(start + 4, next - 1)
            },
            None => true,
        },
{
    let n = match read_i32(buf, start) {
        Some(n) => n,
        None => return None,
    };
    if n < 1 || buf.len() - (start + 4) < n as usize {
        return None;
    }
    let end = start + 4 + n as usize;
    if buf[end - 1] != 0 {
        return None;
    }
    let text = slice_subrange(buf, start + 4, end - 1);
    match str_from_utf8(text) {
        Some(s) => {
            proof {
                let sb = s.spec_bytes();
                assert(sb.len() + 1 == n);
                assert(n as u32 as i32 == n) by (bit_vector);
                assert(buf@.subrange(start as int, start + 4) =~= i32_bytes(n)) by {
                    let sub = buf@.subrange(start as int, start + 4);
                    let x = le_u32(buf@, start as int);
                    assert(x == le_u32(sub, 0));
                    assert((x as i32) as u32 == x) by (bit_vector);
                    lemma_u32_bytes_of_read(sub);
                }
                assert(buf@.subrange(start as int, end as int) =~= string_bytes(sb));
            }
            Some((s, end))
        },
        None => None,
    }
}

/// Four bytes are the bytes of the value they read as.
pub proof fn lemma_u32_bytes_of_read(b: Seq<u8>)
    requires
        b.len() == 4,
    ensures
        u32_bytes(le_u32(b, 0)) =~= b,
{
    let b0 = b[0];
    let b1 = b[1];
    let b2 = b[2];
    let b3 = b[3];
    let u = le_u32(b, 0);
    assert((u & 0xff) as u8 == b0 && ((u >> 8u32) & 0xff) as u8 == b1 && ((u >> 16u32) & 0xff) as u8
        == b2 && ((u >> 24u32) & 0xff) as u8 == b3) by (bit_vector)
        requires
            u == (b0 as u32) | ((b1 as u32) << 8u32) | ((b2 as u32) << 16u32) | ((b3 as u32) << 24u32),
    ;
}

/// Four bytes are the bytes of the signed value they read as.
pub proof fn lemma_i32_bytes_of_read(b: Seq<u8>, i: int)
    requires
        0 <= i && i + 4 <= b.len(),
    ensures
        i32_bytes(le_i32(b, i)) == b.subrange(i, i + 4),
{
    let sub = b.subrange(i, i + 4);
    let x = le_u32(b, i);
    assert(x == le_u32(sub, 0));
    assert((x as i32) as u32 == x) by (bit_vector);
    lemma_u32_bytes_of_read(sub);
}

/// Four bytes are the bytes of the unsigned value they read as.
pub proof fn lemma_u32_bytes_at(b: Seq<u8>, i: int)
    requires
        0 <= i && i + 4 <= b.len(),
    ensures
        u32_bytes(le_u32(b, i)) == b.subrange(i, i + 4),
{
    let sub = b.subrange(i, i + 4);
    assert(le_u32(b, i) == le_u32(sub, 0));
    lemma_u32_bytes_of_read(sub);
}

/// Eight bytes are the bytes of the unsigned value they read as.
pub proof fn lemma_u64_bytes_of_read(b: Seq<u8>, i: int)
    requires
        0 <= i && i + 8 <= b.len(),
    ensures
        u64_bytes(le_u64(b, i)) == b.subrange(i, i + 8),
{
    let lo = le_u32(b, i);
    let hi = le_u32(b, i + 4);
    let u = le_u64(b, i);
    assert((u & 0xffff_ffff) as u32 == lo && (u >> 32u64) as u32 == hi) by (bit_vector)
        requires
            u == (lo as u64) | ((hi as u64) << 32u64),
    ;
    lemma_u32_bytes_at(b, i);
    lemma_u32_bytes_at(b, i + 4);
    assert(b.subrange(i, i + 8) =~= b.subrange(i, i + 4) + b.subrange(i + 4, i + 8));
}

/// Eight bytes are the bytes of the signed value they read as.
pub proof fn lemma_i64_bytes_of_read(b: Seq<u8>, i: int)
    requires
        0 <= i && i + 8 <= b.len(),
    ensures
        i64_bytes(le_i64(b, i)) == b.subrange(i, i + 8),
{
    let u = le_u64(b, i);
    assert((u as i64) as u64 == u) by (bit_vector);
    lemma_u64_bytes_of_read(b, i);
}

/// A string's bytes start with its declared length.
pub proof fn lemma_string_len_prefix(s: Seq<u8>)
    requires
        s.len() + 1 <= i32::MAX,
    ensures
        string_bytes(s).len() == s.len() + 5,
        le_i32(string_bytes(s), 0) == s.len() + 1,
        string_bytes(s).subrange(4, string_bytes(s).len() as int - 1) == s,
        string_bytes(s)[string_bytes(s).len() - 1] == 0,
{
    let n = (s.len() + 1) as i32;
    lemma_i32_round_trip(n);
    let b = string_bytes(s);
    assert(b.subrange(0, 4) =~= i32_bytes(n));
    assert(le_i32(b, 0) == le_i32(b.subrange(0, 4), 0));
    assert(b.subrange(4, b.len() as int - 1) =~= s);
}

/// Compares two byte strings.
pub fn bytes_eq(a: &[u8], b: &[u8]) -> (r: bool)
    ensures
        r == (a@ == b@),
{
    if a.len() != b.len() {
        return false;
    }
    let mut i: usize = 0;
    while i < a.len()
        invariant
            a@.len() == b@.len(),
            0 <= i <= a@.len(),
            forall|k: int| 0 <= k < i ==> a@[k] == b@[k],
        decreases a@.len() - i,
    {
        if a[i] != b[i] {
            return false;
        }
        i = i + 1;
    }
    assert(a@ =~= b@);
    true
}

} // verus!
