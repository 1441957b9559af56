//! The library's errors and the slot that keeps the last error message
//! for callers that receive only a status code.
use crate::address::{addr_doc_id, addr_segment_ord, addr_text, BurkazObjectAddr};
use vstd::string::*;
use vstd::prelude::*;

verus! {

#[verifier::external_type_specification]
#[verifier::external_body]
pub struct ExTantivyError(tantivy::TantivyError);

#[derive(Debug)]
pub enum BurkazError {
    TantivyError(tantivy::TantivyError),
    UnknownError(String),
    NullPointer(&'static str),
    ObjectNotFound(BurkazObjectAddr),
    IndexClosed,
}

impl BurkazError {
    /// The text of the error: a phrase naming its kind, then its detail.
    /// The detail of a search-engine error is that error's own text, of which
    /// nothing more is said here.
    pub fn to_string(&self) -> (r: String)
        ensures
            match self {
                BurkazError::TantivyError(_) => "Tantivy error: "@.is_prefix_of(r@),
                BurkazError::UnknownError(e) => r@ == "Unknown error: "@ + e@,
                BurkazError::NullPointer(e) => r@ == "Null pointer error: "@ + e@,
                BurkazError::ObjectNotFound(a) => r@ == "Object not found: "@ + addr_text(
                    addr_segment_ord(a@),
                    addr_doc_id(a@),
                ),
                BurkazError::IndexClosed => r@ == "Index closed"@,
            },
    {
        match self {
            BurkazError::TantivyError(e) => {
                let mut text = "Tantivy error: ".to_owned();
                let detail = e.to_string();
                text.append(detail.as_str());
                assert(text@.subrange(0, "Tantivy error: "@.len() as int) =~= "Tantivy error: "@);
                text
            },
            BurkazError::UnknownError(e) => {
                let mut text = "Unknown error: ".to_owned();
                text.append(e.as_str());
                text
            },
            BurkazError::NullPointer(e) => {
                let mut text = "Null pointer error: ".to_owned();
                text.append(e);
                text
            },
            BurkazError::ObjectNotFound(addr) => {
                let mut text = "Object not found: ".to_owned();
                let detail = addr.to_string();
                text.append(detail.as_str());
                text
            },
            BurkazError::IndexClosed => "Index closed".to_owned(),
        }
    }
}

impl From<BurkazObjectAddr> for BurkazError {
    fn from(addr: BurkazObjectAddr) -> (r: Self)
        ensures
            r matches BurkazError::ObjectNotFound(a) && a@ == addr@,
    {
        BurkazError::ObjectNotFound(addr)
    }
}

impl vstd::std_specs::convert::FromSpecImpl<BurkazObjectAddr> for BurkazError {
    open spec fn obeys_from_spec() -> bool {
        true
    }

    open spec fn from_spec(addr: BurkazObjectAddr) -> Self {
        BurkazError::ObjectNotFound(addr)
    }
}

impl From<tantivy::TantivyError> for BurkazError {
    fn from(error: tantivy::TantivyError) -> (r: Self)
        ensures
            r == BurkazError::TantivyError(error),
    {
        BurkazError::TantivyError(error)
    }
}

impl vstd::std_specs::convert::FromSpecImpl<tantivy::TantivyError> for BurkazError {
    open spec fn obeys_from_spec() -> bool {
        true
    }

    open spec fn from_spec(error: tantivy::TantivyError) -> Self {
        BurkazError::TantivyError(error)
    }
}

/// Keeps the message of the last error until it is taken.
pub struct BurkazErrorSlot {
    last: Option<String>,
}

impl BurkazErrorSlot {
    pub fn new() -> (r: Self)
        ensures
            r.last() is None,
    {
        BurkazErrorSlot { last: None }
    }

    /// The message kept, if any.
    pub closed spec fn last(&self) -> Option<Seq<char>> {
        match self.last {
            Some(s) => Some(s@),
            None => None,
        }
    }
}

/// Keeps `message` as the last error, in place of any message kept before.
pub fn store_error(storage: &mut BurkazErrorSlot, message: String)
    ensures
        final(storage).last() == Some(message@),
{
    storage.last = Some(message);
}

/// Takes the last error message: returns it and keeps none afterwards.
pub fn get_last_error(storage: &mut BurkazErrorSlot) -> (r: Option<String>)
    ensures
        r is Some <==> old(storage).last() is Some,
        r matches Some(s) ==> Some(s@) == old(storage).last(),
        final(storage).last() is None,
{
    let mut taken: Option<String> = None;
    std::mem::swap(&mut taken, &mut storage.last);
    taken
}

} // verus!
