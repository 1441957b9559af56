//! The address of an object inside an index: a segment ordinal in the
//! upper 32 bits and a segment-local document id in the lower 32 bits.
use crate::encoding::{decimal, u32_decimal};
use vstd::prelude::*;
use vstd::string::*;

verus! {

/// The address packed from a segment ordinal (high half) and a document id (low half).
pub open spec fn pack_addr(segment_ord: u32, doc_id: u32) -> u64 {
    ((segment_ord as u64) << 32u64) | (doc_id as u64)
}

/// The segment ordinal held in the high half of a packed address.
pub open spec fn addr_segment_ord(v: u64) -> u32 {
    (v >> 32u64) as u32
}

/// The document id held in the low half of a packed address.
pub open spec fn addr_doc_id(v: u64) -> u32 {
    (v & 0xffff_ffffu64) as u32
}

#[derive(Debug, Copy, Clone)]
pub struct BurkazObjectAddr(u64);

impl View for BurkazObjectAddr {
    type V = u64;

    closed spec fn view(&self) -> u64 {
        self.0
    }
}

impl BurkazObjectAddr {
    pub fn segment_ord(&self) -> (r: tantivy::SegmentOrdinal)
        ensures
            r == addr_segment_ord(self@),
    {
        (self.0 >> 32u64) as u32
    }

    pub fn doc_id(&self) -> (r: u32)
        ensures
            r == addr_doc_id(self@),
    {
        (self.0 & 0xffff_ffffu64) as u32
    }

    pub fn val(&self) -> (r: u64)
        ensures
            r == self@,
    {
        self.0
    }

    /// The address of document `doc_id` in segment `segment_ord`
    /// (the fields of a `tantivy::DocAddress`).
    pub fn from_parts(segment_ord: u32, doc_id: u32) -> (r: Self)
        ensures
            r@ == pack_addr(segment_ord, doc_id),
    {
        BurkazObjectAddr(((segment_ord as u64) << 32u64) | (doc_id as u64))
    }

    /// The segment ordinal and document id of this address
    /// (the arguments of `tantivy::DocAddress::new`).
    pub fn into_parts(self) -> (r: (u32, u32))
        ensures
            r == (addr_segment_ord(self@), addr_doc_id(self@)),
    {
        (self.segment_ord(), self.doc_id())
    }
}

/// The text of the address with segment ordinal `segment_ord` and document
/// id `doc_id`.
pub open spec fn addr_text(segment_ord: u32, doc_id: u32) -> Seq<char> {
    "BurkazObjectAddr(segment_ord: "@ + decimal(segment_ord as nat) + ", doc_id: "@ + decimal(
        doc_id as nat,
    ) + ")"@
}

impl BurkazObjectAddr {
    /// The text of the address: its segment ordinal and document id in decimal.
    pub fn to_string(&self) -> (r: String)
        ensures
            r@ == addr_text(addr_segment_ord(self@), addr_doc_id(self@)),
    {
        let mut text = "BurkazObjectAddr(segment_ord: ".to_owned();
        let seg = u32_decimal(self.segment_ord());
        text.append(seg.as_str());
        text.append(", doc_id: ");
        let doc = u32_decimal(self.doc_id());
        text.append(doc.as_str());
        text.append(")");
        text
    }
}

impl From<u64> for BurkazObjectAddr {
    fn from(val: u64) -> (r: Self)
        ensures
            r@ == val,
    {
        BurkazObjectAddr(val)
    }
}

impl vstd::std_specs::convert::FromSpecImpl<u64> for BurkazObjectAddr {
    open spec fn obeys_from_spec() -> bool {
        true
    }

    closed spec fn from_spec(v: u64) -> Self {
        BurkazObjectAddr(v)
    }
}

/// Packing a segment ordinal and a document id into an address and reading
/// them back gives the same two numbers.
pub proof fn lemma_pack_then_unpack(segment_ord: u32, doc_id: u32)
    ensures
        addr_segment_ord(pack_addr(segment_ord, doc_id)) == segment_ord,
        addr_doc_id(pack_addr(segment_ord, doc_id)) == doc_id,
{
    assert((((segment_ord as u64) << 32u64) | (doc_id as u64)) >> 32u64 == segment_ord as u64)
        by (bit_vector);
    assert(((((segment_ord as u64) << 32u64) | (doc_id as u64)) & 0xffff_ffffu64) == doc_id as u64)
        by (bit_vector);
}

/// Every address is the packing of its own segment ordinal and document id.
pub proof fn lemma_unpack_then_pack(v: u64)
    ensures
        pack_addr(addr_segment_ord(v), addr_doc_id(v)) == v,
{
    assert(((((v >> 32u64) as u32) as u64) << 32u64) | (((v & 0xffff_ffffu64) as u32) as u64) == v)
        by (bit_vector);
}

} // verus!
