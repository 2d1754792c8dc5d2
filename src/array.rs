//! Positional access to a borrowed array.
use vstd::prelude::*;
use vstd::string::StringSliceAdditionalSpecFns;

use crate::raw::{
    element_at, element_holds, find_index, kind_of, value_at, RawArray, RawBinaryRef, RawBsonRef, RawDocument, RawElement,
    RawError, RawRegexRef,
};
use crate::spec::{type_tag, ElementType};
use crate::types::{DateTime, ObjectId, Timestamp};

verus! {

/// Why a value could not be read at a position.
#[derive(Debug, Clone, Copy, PartialEq, Eq, Structural)]
pub enum ValueAccessErrorKind {
    /// No element stands at the position.
    NotPresent,
    /// An element before or at the position is malformed.
    InvalidBson(RawError),
    /// The element has another kind than the one asked for.
    UnexpectedType { actual: ElementType, expected: ElementType },
}

/// A failed typed read, with the position it was asked at.
#[derive(Debug, Clone, Copy, PartialEq, Eq, Structural)]
pub struct ValueAccessError {
    pub index: usize,
    pub kind: ValueAccessErrorKind,
}

/// The element `index` places on holds `v`.
pub open spec fn found_value(b: Seq<u8>, index: nat, v: RawBsonRef) -> bool {
    find_index(b, 4, index) matches Some(Some(p)) && value_at(b, p, v)
}

/// The element `index` places on exists and has kind `t`.
pub open spec fn found_of_kind(b: Seq<u8>, index: nat, t: ElementType) -> bool {
    find_index(b, 4, index) matches Some(Some(p)) && b[p] == type_tag(t)
}

/// `kind` is the right reason why reading kind `t` at `index` fails.
pub open spec fn access_error_ok(b: Seq<u8>, index: nat, t: ElementType, kind: ValueAccessErrorKind) -> bool {
    match kind {
        ValueAccessErrorKind::NotPresent => find_index(b, 4, index) == Some(None::<int>),
        ValueAccessErrorKind::InvalidBson(_) => find_index(b, 4, index) is None,
        ValueAccessErrorKind::UnexpectedType { actual, expected } => {
            &&& expected == t
            &&& actual != t
            &&& find_index(b, 4, index) matches Some(Some(p))
            &&& b[p] == type_tag(actual)
        },
    }
}

proof fn lemma_type_tag_injective(a: ElementType, b: ElementType)
    ensures
        type_tag(a) == type_tag(b) <==> a == b,
{
}

impl<'a> RawArray<'a> {
    /// The value at `index`: O(n), walking the elements before it.
    pub fn get(&self, index: usize) -> (r: Result<Option<RawBsonRef<'a>>, RawError>)
        ensures
            r is Err <==> find_index(self.bytes(), 4, index as nat) is None,
            r matches Ok(None) ==> find_index(self.bytes(), 4, index as nat) == Some(None::<int>),
            r matches Ok(Some(v)) ==> found_value(self.bytes(), index as nat, v),
    {
        self.as_doc().get_at(index)
    }

    fn get_kind(&self, index: usize, t: ElementType) -> (r: Result<RawBsonRef<'a>, ValueAccessError>)
        ensures
            r is Ok <==> found_of_kind(self.bytes(), index as nat, t),
            r matches Ok(v) ==> found_value(self.bytes(), index as nat, v) && kind_of(v) == t,
            r matches Err(e) ==> e.index == index && access_error_ok(self.bytes(), index as nat, t, e.kind),
    {
        match self.get(index) {
            Err(e) => Err(ValueAccessError { index, kind: ValueAccessErrorKind::InvalidBson(e) }),
            Ok(None) => Err(ValueAccessError { index, kind: ValueAccessErrorKind::NotPresent }),
            Ok(Some(v)) => {
                let actual = v.element_type();
                proof {
                    lemma_type_tag_injective(actual, t);
                }
                if actual == t {
                    Ok(v)
                } else {
                    Err(
                        ValueAccessError {
                            index,
                            kind: ValueAccessErrorKind::UnexpectedType { actual, expected: t },
                        },
                    )
                }
            },
        }
    }

    /// The `String` at `index`.
    pub fn get_str(&self, index: usize) -> (r: Result<&'a str, ValueAccessError>)
        ensures
            r is Ok <==> found_of_kind(self.bytes(), index as nat, ElementType::String),
            r matches Ok(x) ==> found_value(self.bytes(), index as nat, RawBsonRef::String(x)),
            r matches Err(e) ==> e.index == index && access_error_ok(
                self.bytes(),
                index as nat,
                ElementType::String,
                e.kind,
            ),
    {
        match self.get_kind(index, ElementType::String) {
            Ok(RawBsonRef::String(x)) => Ok(x),
            Ok(_) => {
                proof {
                    assert(false);
                }
                Err(ValueAccessError { index, kind: ValueAccessErrorKind::NotPresent })
            },
            Err(e) => Err(e),
        }
    }

    /// The `Document` at `index`.
    pub fn get_document(&self, index: usize) -> (r: Result<RawDocument<'a>, ValueAccessError>)
        ensures
            r is Ok <==> found_of_kind(self.bytes(), index as nat, ElementType::EmbeddedDocument),
            r matches Ok(x) ==> found_value(self.bytes(), index as nat, RawBsonRef::Document(x)),
            r matches Err(e) ==> e.index == index && access_error_ok(
                self.bytes(),
                index as nat,
                ElementType::EmbeddedDocument,
                e.kind,
            ),
    {
        match self.get_kind(index, ElementType::EmbeddedDocument) {
            Ok(RawBsonRef::Document(x)) => Ok(x),
            Ok(_) => {
                proof {
                    assert(false);
                }
                Err(ValueAccessError { index, kind: ValueAccessErrorKind::NotPresent })
            },
            Err(e) => Err(e),
        }
    }

    /// The `Array` at `index`.
    pub fn get_array(&self, index: usize) -> (r: Result<RawArray<'a>, ValueAccessError>)
        ensures
            r is Ok <==> found_of_kind(self.bytes(), index as nat, ElementType::Array),
            r matches Ok(x) ==> found_value(self.bytes(), index as nat, RawBsonRef::Array(x)),
            r matches Err(e) ==> e.index == index && access_error_ok(
                self.bytes(),
                index as nat,
                ElementType::Array,
                e.kind,
            ),
    {
        match self.get_kind(index, ElementType::Array) {
            Ok(RawBsonRef::Array(x)) => Ok(x),
            Ok(_) => {
                proof {
                    assert(false);
                }
                Err(ValueAccessError { index, kind: ValueAccessErrorKind::NotPresent })
            },
            Err(e) => Err(e),
        }
    }

    /// The `Binary` at `index`.
    pub fn get_binary(&self, index: usize) -> (r: Result<RawBinaryRef<'a>, ValueAccessError>)
        ensures
            r is Ok <==> found_of_kind(self.bytes(), index as nat, ElementType::Binary),
            r matches Ok(x) ==> found_value(self.bytes(), index as nat, RawBsonRef::Binary(x)),
            r matches Err(e) ==> e.index == index && access_error_ok(
                self.bytes(),
                index as nat,
                ElementType::Binary,
                e.kind,
            ),
    {
        match self.get_kind(index, ElementType::Binary) {
            Ok(RawBsonRef::Binary(x)) => Ok(x),
            Ok(_) => {
                proof {
                    assert(false);
                }
                Err(ValueAccessError { index, kind: ValueAccessErrorKind::NotPresent })
            },
            Err(e) => Err(e),
        }
    }

    /// The `ObjectId` at `index`.
    pub fn get_object_id(&self, index: usize) -> (r: Result<ObjectId, ValueAccessError>)
        ensures
            r is Ok <==> found_of_kind(self.bytes(), index as nat, ElementType::ObjectId),
            r matches Ok(x) ==> found_value(self.bytes(), index as nat, RawBsonRef::ObjectId(x)),
            r matches Err(e) ==> e.index == index && access_error_ok(
                self.bytes(),
                index as nat,
                ElementType::ObjectId,
                e.kind,
            ),
    {
        match self.get_kind(index, ElementType::ObjectId) {
            Ok(RawBsonRef::ObjectId(x)) => Ok(x),
            Ok(_) => {
                proof {
                    assert(false);
                }
                Err(ValueAccessError { index, kind: ValueAccessErrorKind::NotPresent })
            },
            Err(e) => Err(e),
        }
    }

    /// The `Boolean` at `index`.
    pub fn get_bool(&self, index: usize) -> (r: Result<bool, ValueAccessError>)
        ensures
            r is Ok <==> found_of_kind(self.bytes(), index as nat, ElementType::Boolean),
            r matches Ok(x) ==> found_value(self.bytes(), index as nat, RawBsonRef::Boolean(x)),
            r matches Err(e) ==> e.index == index && access_error_ok(
                self.bytes(),
                index as nat,
                ElementType::Boolean,
                e.kind,
            ),
    {
        match self.get_kind(index, ElementType::Boolean) {
            Ok(RawBsonRef::Boolean(x)) => Ok(x),
            Ok(_) => {
                proof {
                    assert(false);
                }
                Err(ValueAccessError { index, kind: ValueAccessErrorKind::NotPresent })
            },
            Err(e) => Err(e),
        }
    }

    /// The `DateTime` at `index`.
    pub fn get_datetime(&self, index: usize) -> (r: Result<DateTime, ValueAccessError>)
        ensures
            r is Ok <==> found_of_kind(self.bytes(), index as nat, ElementType::DateTime),
            r matches Ok(x) ==> found_value(self.bytes(), index as nat, RawBsonRef::DateTime(x)),
            r matches Err(e) ==> e.index == index && access_error_ok(
                self.bytes(),
                index as nat,
                ElementType::DateTime,
                e.kind,
            ),
    {
        match self.get_kind(index, ElementType::DateTime) {
            Ok(RawBsonRef::DateTime(x)) => Ok(x),
            Ok(_) => {
                proof {
                    assert(false);
                }
                Err(ValueAccessError { index, kind: ValueAccessErrorKind::NotPresent })
            },
            Err(e) => Err(e),
        }
    }

    /// The `RegularExpression` at `index`.
    pub fn get_regex(&self, index: usize) -> (r: Result<RawRegexRef<'a>, ValueAccessError>)
        ensures
            r is Ok <==> found_of_kind(self.bytes(), index as nat, ElementType::RegularExpression),
            r matches Ok(x) ==> found_value(self.bytes(), index as nat, RawBsonRef::RegularExpression(x)),
            r matches Err(e) ==> e.index == index && access_error_ok(
                self.bytes(),
                index as nat,
                ElementType::RegularExpression,
                e.kind,
            ),
    {
        match self.get_kind(index, ElementType::RegularExpression) {
            Ok(RawBsonRef::RegularExpression(x)) => Ok(x),
            Ok(_) => {
                proof {
                    assert(false);
                }
                Err(ValueAccessError { index, kind: ValueAccessErrorKind::NotPresent })
            },
            Err(e) => Err(e),
        }
    }

    /// The `Timestamp` at `index`.
    pub fn get_timestamp(&self, index: usize) -> (r: Result<Timestamp, ValueAccessError>)
        ensures
            r is Ok <==> found_of_kind(self.bytes(), index as nat, ElementType::Timestamp),
            r matches Ok(x) ==> found_value(self.bytes(), index as nat, RawBsonRef::Timestamp(x)),
            r matches Err(e) ==> e.index == index && access_error_ok(
                self.bytes(),
                index as nat,
                ElementType::Timestamp,
                e.kind,
            ),
    {
        match self.get_kind(index, ElementType::Timestamp) {
            Ok(RawBsonRef::Timestamp(x)) => Ok(x),
            Ok(_) => {
                proof {
                    assert(false);
                }
                Err(ValueAccessError { index, kind: ValueAccessErrorKind::NotPresent })
            },
            Err(e) => Err(e),
        }
    }

    /// The `Int32` at `index`.
    pub fn get_i32(&self, index: usize) -> (r: Result<i32, ValueAccessError>)
        ensures
            r is Ok <==> found_of_kind(self.bytes(), index as nat, ElementType::Int32),
            r matches Ok(x) ==> found_value(self.bytes(), index as nat, RawBsonRef::Int32(x)),
            r matches Err(e) ==> e.index == index && access_error_ok(
                self.bytes(),
                index as nat,
                ElementType::Int32,
                e.kind,
            ),
    {
        match self.get_kind(index, ElementType::Int32) {
            Ok(RawBsonRef::Int32(x)) => Ok(x),
            Ok(_) => {
                proof {
                    assert(false);
                }
                Err(ValueAccessError { index, kind: ValueAccessErrorKind::NotPresent })
            },
            Err(e) => Err(e),
        }
    }

    /// The `Int64` at `index`.
    pub fn get_i64(&self, index: usize) -> (r: Result<i64, ValueAccessError>)
        ensures
            r is Ok <==> found_of_kind(self.bytes(), index as nat, ElementType::Int64),
            r matches Ok(x) ==> found_value(self.bytes(), index as nat, RawBsonRef::Int64(x)),
            r matches Err(e) ==> e.index == index && access_error_ok(
                self.bytes(),
                index as nat,
                ElementType::Int64,
                e.kind,
            ),
    {
        match self.get_kind(index, ElementType::Int64) {
            Ok(RawBsonRef::Int64(x)) => Ok(x),
            Ok(_) => {
                proof {
                    assert(false);
                }
                Err(ValueAccessError { index, kind: ValueAccessErrorKind::NotPresent })
            },
            Err(e) => Err(e),
        }
    }

    /// A fresh walk over the array's elements.
    pub fn iter_elements(&self) -> (r: RawIter<'a>)
        ensures
            r.doc.bytes() == self.bytes(),
            r.pos == 4,
            !r.done,
    {
        RawIter { doc: self.as_doc(), pos: 4, done: false }
    }

    /// A fresh walk over the array's values.
    pub fn iter(&self) -> (r: RawArrayIter<'a>)
        ensures
            r.inner.doc.bytes() == self.bytes(),
            r.inner.pos == 4,
            !r.inner.done,
    {
        RawArrayIter { inner: self.iter_elements() }
    }
}

/// A walk over the elements of a document, which stops at the first malformed one.
pub struct RawIter<'a> {
    pub doc: RawDocument<'a>,
    pub pos: usize,
    pub done: bool,
}

impl<'a> RawIter<'a> {
    /// The walk is at an element boundary, or finished.
    pub open spec fn wf(&self) -> bool {
        !self.done ==> 4 <= self.pos < self.doc.bytes().len()
    }

    /// The next element; after the last one, or after an error, `None`.
    pub fn next(&mut self) -> (r: Option<Result<RawElement<'a>, RawError>>)
        requires
            old(self).wf(),
        ensures
            final(self).wf(),
            final(self).doc.bytes() == old(self).doc.bytes(),
            old(self).done ==> r is None && final(self).done,
            !old(self).done ==> {
                let b = old(self).doc.bytes();
                let p = old(self).pos as int;
                &&& (r is None <==> p + 1 == b.len())
                &&& (r is None ==> final(self).done)
                &&& (r matches Some(Err(_)) <==> (p + 1 < b.len() && element_at(b, p) is None))
                &&& (r matches Some(Err(_)) ==> final(self).done)
                &&& (r matches Some(Ok(el)) ==> element_holds(b, p, el.key.spec_bytes(), el.value, el.next as int)
                    && final(self).pos == el.next && !final(self).done)
            },
    {
        if self.done {
            return None;
        }
        match self.doc.element_at(self.pos) {
            Ok(None) => {
                self.done = true;
                None
            },
            Ok(Some(el)) => {
                self.pos = el.next;
                Some(Ok(el))
            },
            Err(e) => {
                self.done = true;
                Some(Err(e))
            },
        }
    }
}

/// A walk over the values of an array, which stops at the first malformed element.
pub struct RawArrayIter<'a> {
    pub inner: RawIter<'a>,
}

impl<'a> RawArrayIter<'a> {
    /// The next value; after the last one, or after an error, `None`.
    pub fn next(&mut self) -> (r: Option<Result<RawBsonRef<'a>, RawError>>)
        requires
            old(self).inner.wf(),
        ensures
            final(self).inner.wf(),
            final(self).inner.doc.bytes() == old(self).inner.doc.bytes(),
            old(self).inner.done ==> r is None,
            !old(self).inner.done ==> {
                let b = old(self).inner.doc.bytes();
                let p = old(self).inner.pos as int;
                &&& (r is None <==> p + 1 == b.len())
                &&& (r matches Some(Err(_)) <==> (p + 1 < b.len() && element_at(b, p) is None))
                &&& (r matches Some(Ok(v)) ==> value_at(b, p, v) && (element_at(b, p) matches Some(
                    (_, n),
                ) && final(self).inner.pos == n))
            },
    {
        match self.inner.next() {
            Some(Ok(el)) => Some(Ok(el.value)),
            Some(Err(e)) => Some(Err(e)),
            None => None,
        }
    }
}

} // verus!
