//! The owned value tree.
use vstd::prelude::*;
use vstd::string::StrSliceExecFns;

use crate::binary::Binary;
use crate::types::{DateTime, Decimal128, ObjectId, Timestamp};

verus! {

/// A regular expression: a pattern and its options.
#[derive(Debug, Clone, PartialEq)]
pub struct Regex {
    pub pattern: String,
    pub options: String,
}

/// Code with the scope it runs in.
#[derive(Debug, PartialEq)]
pub struct JavaScriptCodeWithScope {
    pub code: String,
    pub scope: Document,
}

/// A database pointer: a namespace and an object id.
#[derive(Debug, Clone, PartialEq)]
pub struct DbPointer {
    pub namespace: String,
    pub id: ObjectId,
}

/// An insertion-ordered mapping from keys to values.
#[derive(Debug, PartialEq)]
pub struct Document {
    pub entries: Vec<(String, Bson)>,
}

/// One owned value. A double is held as its IEEE-754 bits.
#[derive(Debug, PartialEq)]
pub enum Bson {
    Double(u64),
    String(String),
    Array(Vec<Bson>),
    Document(Document),
    Boolean(bool),
    Null,
    RegularExpression(Regex),
    JavaScriptCode(String),
    JavaScriptCodeWithScope(JavaScriptCodeWithScope),
    Int32(i32),
    Int64(i64),
    Timestamp(Timestamp),
    Binary(Binary),
    ObjectId(ObjectId),
    DateTime(DateTime),
    Symbol(String),
    Decimal128(Decimal128),
    Undefined,
    MaxKey,
    MinKey,
    DbPointer(DbPointer),
}

/// Why an unsigned number has no signed form.
#[derive(Debug, Clone, Copy, PartialEq, Eq, Structural)]
pub enum ConversionError {
    /// Above the largest signed 64-bit value.
    TooLarge { value: u64 },
}

/// The signed form of an unsigned number: `Int32` where it fits in 32 bits,
/// else `Int64` where it fits in 64, else none.
pub open spec fn signed_form(value: u64) -> Option<Bson> {
    if value <= i32::MAX {
        Some(Bson::Int32(value as i32))
    } else if value <= i64::MAX {
        Some(Bson::Int64(value as i64))
    } else {
        None
    }
}

/// Demotes an unsigned number to a signed value, or refuses it: never truncates.
pub fn convert_unsigned_to_signed(value: u64) -> (r: Result<Bson, ConversionError>)
    ensures
        match signed_form(value) {
            Some(b) => r == Ok::<Bson, ConversionError>(b),
            None => r == Err::<Bson, ConversionError>(ConversionError::TooLarge { value }),
        },
{
    if value <= i32::MAX as u64 {
        Ok(Bson::Int32(value as i32))
    } else if value <= i64::MAX as u64 {
        Ok(Bson::Int64(value as i64))
    } else {
        Err(ConversionError::TooLarge { value })
    }
}

/// No two entries share a key.
pub open spec fn keys_unique(e: Seq<(String, Bson)>) -> bool {
    forall|i: int, j: int| 0 <= i < j < e.len() ==> e[i].0@ != e[j].0@
}

/// The position of the entry with key `k`, if any.
pub open spec fn key_index(e: Seq<(String, Bson)>, k: Seq<char>) -> Option<int> {
    if exists|i: int| 0 <= i < e.len() && e[i].0@ == k {
        Some(choose|i: int| 0 <= i < e.len() && e[i].0@ == k)
    } else {
        None
    }
}

impl Document {
    /// An empty document.
    pub fn new() -> (r: Document)
        ensures
            r.entries@.len() == 0,
    {
        Document { entries: Vec::new() }
    }

    /// Sets the value of `key`: an existing entry keeps its place and takes the new
    /// value, else the entry goes last. Keys stay unique.
    pub fn insert(&mut self, key: String, value: Bson)
        requires
            keys_unique(old(self).entries@),
        ensures
            keys_unique(final(self).entries@),
            match key_index(old(self).entries@, key@) {
                Some(i) => final(self).entries@ == old(self).entries@.update(i, (old(self).entries@[i].0, value)),
                None => final(self).entries@ == old(self).entries@.push((key, value)),
            },
    {
        let mut i: usize = 0;
        while i < self.entries.len()
            invariant
                0 <= i <= self.entries@.len(),
                self.entries@ == old(self).entries@,
                keys_unique(old(self).entries@),
                forall|j: int| 0 <= j < i ==> self.entries@[j].0@ != key@,
            decreases self.entries@.len() - i,
        {
            if self.entries[i].0 == key {
                let ghost e0 = self.entries@;
                proof {
                    assert(forall|j: int| 0 <= j < e0.len() && e0[j].0@ == key@ ==> j == i);
                    let c = choose|j: int| 0 <= j < e0.len() && e0[j].0@ == key@;
                    assert(c == i);
                }
                let old_key = self.entries[i].0.clone();
                self.entries.set(i, (old_key, value));
                assert(forall|j: int| 0 <= j < self.entries@.len() ==> self.entries@[j].0@ == e0[j].0@);
                return;
            }
            i = i + 1;
        }
        self.entries.push((key, value));
    }
}

/// The characters are in ascending order.
pub open spec fn chars_sorted(s: Seq<char>) -> bool {
    forall|i: int, j: int| 0 <= i < j < s.len() ==> (s[i] as u32) <= (s[j] as u32)
}

/// Relies on `String`'s `FromIterator<char>`: the characters, in order.
#[verifier::external_body]
fn string_of_chars(v: &Vec<char>) -> (r: String)
    ensures
        r@ == v@,
{
    v.iter().collect()
}

/// Sorts characters in ascending order, keeping every one.
fn sort_chars(v: &mut Vec<char>)
    ensures
        chars_sorted(final(v)@),
        final(v)@.to_multiset() == old(v)@.to_multiset(),
{
    let mut i: usize = 1;
    let ghost orig = v@;
    if v.len() == 0 {
        return;
    }
    while i < v.len()
        invariant
            1 <= i <= v@.len(),
            v@.len() == orig.len(),
            v@.to_multiset() == orig.to_multiset(),
            chars_sorted(v@.subrange(0, i as int)),
        decreases v@.len() - i,
    {
        let mut j: usize = i;
        assert forall|a: int, b: int|
            0 <= a < b <= i && a != j && b != j implies (v@[a] as u32) <= (v@[b] as u32) by {
            assert(v@.subrange(0, i as int)[a] == v@[a]);
            assert(v@.subrange(0, i as int)[b] == v@[b]);
        }
        while j > 0 && (v[j - 1] as u32) > (v[j] as u32)
            invariant
                0 <= j <= i < v@.len(),
                v@.len() == orig.len(),
                v@.to_multiset() == orig.to_multiset(),
                forall|a: int, b: int|
                    0 <= a < b <= i && a != j && b != j ==> (v@[a] as u32) <= (v@[b] as u32),
                forall|b: int| j < b <= i ==> (v@[j as int] as u32) <= (v@[b] as u32),
            decreases j,
        {
            let a = v[j - 1];
            let b = v[j];
            let ghost s0 = v@;
            v.set(j - 1, b);
            v.set(j, a);
            proof {
                vstd::seq_lib::to_multiset_update(s0, j - 1, b);
                vstd::seq_lib::to_multiset_update(s0.update(j - 1, b), j as int, a);
                assert(s0.update(j - 1, b)[j as int] == b);
                assert(s0[j - 1] == a);
                assert(s0.contains(a));
                vstd::seq_lib::to_multiset_contains(s0, a);
                assert(v@.to_multiset() =~= s0.to_multiset());
            }
            j = j - 1;
        }
        assert(chars_sorted(v@.subrange(0, i + 1)));
        i = i + 1;
    }
    assert(v@.subrange(0, v@.len() as int) =~= v@);
}

fn is_sorted(v: &Vec<char>) -> (r: bool)
    ensures
        r == chars_sorted(v@),
{
    let mut i: usize = 1;
    if v.len() == 0 {
        return true;
    }
    while i < v.len()
        invariant
            1 <= i <= v@.len(),
            chars_sorted(v@.subrange(0, i as int)),
        decreases v@.len() - i,
    {
        if (v[i - 1] as u32) > (v[i] as u32) {
            return false;
        }
        assert forall|a: int, b: int| 0 <= a < b < i + 1 implies (v@[a] as u32) <= (v@[b] as u32) by {
            if b < i {
                assert(v@.subrange(0, i as int)[a] == v@[a]);
                assert(v@.subrange(0, i as int)[b] == v@[b]);
            } else if a < i - 1 {
                assert(v@.subrange(0, i as int)[a] == v@[a]);
                assert(v@.subrange(0, i as int)[i - 1] == v@[i - 1]);
            }
        }
        assert(chars_sorted(v@.subrange(0, i + 1)));
        i = i + 1;
    }
    assert(v@.subrange(0, v@.len() as int) =~= v@);
    true
}

impl Regex {
    /// A regular expression whose options are sorted.
    pub fn new(pattern: &str, options: &str) -> (r: Regex)
        ensures
            r.pattern@ == pattern@,
            chars_sorted(r.options@),
            r.options@.to_multiset() == options@.to_multiset(),
            chars_sorted(options@) ==> r.options@ == options@,
    {
        let n = options.unicode_len();
        let mut chars: Vec<char> = Vec::new();
        let mut i: usize = 0;
        while i < n
            invariant
                n == options@.len(),
                0 <= i <= n,
                chars@ == options@.subrange(0, i as int),
            decreases n - i,
        {
            chars.push(options.get_char(i));
            i = i + 1;
            assert(chars@ =~= options@.subrange(0, i as int));
        }
        assert(chars@ =~= options@);
        if is_sorted(&chars) {
            return Regex { pattern: pattern.to_owned(), options: options.to_owned() };
        }
        sort_chars(&mut chars);
        Regex { pattern: pattern.to_owned(), options: string_of_chars(&chars) }
    }
}

} // verus!
