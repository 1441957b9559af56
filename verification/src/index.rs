//! Where an index keeps its data, and the check that an object address
//! names a segment of the index before the object is fetched.
use crate::address::{addr_doc_id, addr_segment_ord, BurkazObjectAddr};
use crate::error::BurkazError;
use vstd::prelude::*;

verus! {

#[verifier::external_type_specification]
#[verifier::external_body]
pub struct ExPathBuf(std::path::PathBuf);

/// Where an index keeps its data: in memory, or in a directory on disk.
pub enum BurkazDirectory<'a> {
    InMemory,
    OnDisk(&'a std::path::PathBuf),
}

/// The segment ordinal and document id of the object at `addr`, where its
/// segment is one of the `segment_count` segments that the searcher holds
/// (the count is taken as a `u32`); otherwise the object is not found.
pub fn locate_object(addr: BurkazObjectAddr, segment_count: usize) -> (r: Result<
    (u32, u32),
    BurkazError,
>)
    ensures
        addr_segment_ord(addr@) >= (segment_count as u32) ==> (r matches Err(
            BurkazError::ObjectNotFound(a),
        ) && a@ == addr@),
        addr_segment_ord(addr@) < (segment_count as u32) ==> r == Ok::<(u32, u32), BurkazError>(
            (addr_segment_ord(addr@), addr_doc_id(addr@)),
        ),
{
    if addr.segment_ord() >= segment_count as u32 {
        return Err(BurkazError::ObjectNotFound(addr));
    }
    Ok(addr.into_parts())
}

} // verus!
