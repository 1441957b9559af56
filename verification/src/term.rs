//! Search terms: a field id followed by one encoded value, and the form in
//! which the search engine takes them.
use crate::encoding::{u32_be_bytes, u32_be_bytes_exec, u64_be_bytes, u64_be_bytes_exec};
use crate::object::{
    encode_value, encoded_bool, encoded_int, encoded_text, encoded_text_bytes, value_encoding,
    value_type_of_code, BurkazValue, BurkazValueModel, BurkazValueRef, ValueType,
};
use crate::serializable::BinarySerializable;
use tantivy::columnar::MonotonicallyMappableToU64;
use vstd::bytes::*;
use vstd::prelude::*;
use vstd::slice::slice_subrange;
use vstd::string::*;
use vstd::utf8::*;

verus! {

#[verifier::external_type_specification]
#[verifier::external_body]
pub struct ExTantivyTerm(tantivy::Term);

/// `tantivy::schema::Type::I64.to_code()`: the tag byte of integer terms, `b'i'`.
#[verifier::external_body]
fn tantivy_i64_type_code() -> (r: u8)
    ensures
        r == 105u8,
{
    tantivy::schema::Type::I64.to_code()
}

/// `tantivy::schema::Type::Str.to_code()`: the tag byte of text terms, `b's'`.
#[verifier::external_body]
fn tantivy_str_type_code() -> (r: u8)
    ensures
        r == 115u8,
{
    tantivy::schema::Type::Str.to_code()
}

/// `tantivy::schema::Type::Bool.to_code()`: the tag byte of boolean terms, `b'o'`.
#[verifier::external_body]
fn tantivy_bool_type_code() -> (r: u8)
    ensures
        r == 111u8,
{
    tantivy::schema::Type::Bool.to_code()
}

/// The order-preserving map of `i64` onto `u64` that the search engine
/// uses: the two's complement bits with the highest bit flipped.
pub open spec fn monotonic_i64_to_u64(v: i64) -> u64 {
    (v as u64) ^ 0x8000_0000_0000_0000u64
}

/// `MonotonicallyMappableToU64::to_u64` for `i64` (tantivy-columnar),
/// which is `common::i64_to_u64`: the bits with the highest bit flipped.
#[verifier::external_body]
fn i64_to_monotonic_u64(v: i64) -> (r: u64)
    ensures
        r == monotonic_i64_to_u64(v),
{
    v.to_u64()
}

/// `MonotonicallyMappableToU64::to_u64` for `bool` (tantivy-columnar),
/// which is `u64::from`: 1 for true, 0 for false.
#[verifier::external_body]
fn bool_to_monotonic_u64(b: bool) -> (r: u64)
    ensures
        r == (if b {
            1u64
        } else {
            0u64
        }),
{
    b.to_u64()
}

/// The search engine's term read from its serialized form: a big-endian
/// field id, then the value bytes.
pub uninterp spec fn engine_term_of(serialized: Seq<u8>) -> tantivy::Term;

/// `tantivy::Term::wrap`: the term read from its serialized form (a
/// big-endian field id, then the value bytes). It panics on fewer than four
/// bytes; its result depends on the bytes alone.
#[verifier::external_body]
#[allow(deprecated)]
fn tantivy_term_wrap(serialized: &[u8]) -> (r: tantivy::Term)
    requires
        serialized@.len() >= 4,
    ensures
        r == engine_term_of(serialized@),
{
    tantivy::Term::wrap(serialized)
}

/// A term: the field id as a little-endian `u32`, then one encoded value.
#[derive(Debug, Clone)]
pub struct BurkazTerm(Vec<u8>);

impl View for BurkazTerm {
    type V = Seq<u8>;

    closed spec fn view(&self) -> Seq<u8> {
        self.0@
    }
}

/// The kinds of value a term can hold.
pub open spec fn term_value_supported(v: BurkazValueModel) -> bool {
    v is I64 || v is Str || v is Bool
}

/// The bytes of the term for `value` in field `field_id`.
pub open spec fn term_bytes(field_id: u32, value: BurkazValueModel) -> Seq<u8> {
    spec_u32_to_le_bytes(field_id) + value_encoding(value).unwrap()
}

/// The field id at the front of a term, where four bytes are there.
pub open spec fn term_field_id(t: Seq<u8>) -> Option<u32> {
    if t.len() >= 4 {
        Some(spec_u32_from_le_bytes(t.subrange(0, 4)))
    } else {
        None
    }
}

/// The encoded value of a term: everything after the field id.
pub open spec fn term_value(t: Seq<u8>) -> Seq<u8> {
    t.subrange(4, t.len() as int)
}

/// A term the search engine can take: a field id and a complete integer,
/// text or boolean value.
pub open spec fn term_convertible(t: Seq<u8>) -> bool {
    &&& t.len() >= 5
    &&& match value_type_of_code(term_value(t)[0]) {
        ValueType::Int64 => encoded_int(term_value(t)) is Some,
        ValueType::Text => encoded_text(term_value(t)) is Some,
        ValueType::Boolean => encoded_bool(term_value(t)) is Some,
        ValueType::Null => false,
    }
}

/// The serialized form of a term for the search engine: the field id as a
/// big-endian `u32`, the engine's tag byte of the value's kind, then the
/// value: integers mapped to `u64` in order and written big-endian,
/// booleans as a big-endian `u64` 0 or 1, text as its UTF-8 bytes.
pub open spec fn engine_term_bytes(t: Seq<u8>) -> Seq<u8> {
    let head = u32_be_bytes(term_field_id(t).unwrap());
    let v = term_value(t);
    match value_type_of_code(v[0]) {
        ValueType::Int64 => head + seq![105u8] + u64_be_bytes(
            monotonic_i64_to_u64(encoded_int(v).unwrap()),
        ),
        ValueType::Text => head + seq![115u8] + encoded_text_bytes(v).unwrap(),
        ValueType::Boolean => head + seq![111u8] + u64_be_bytes(
            if encoded_bool(v).unwrap() {
                1u64
            } else {
                0u64
            },
        ),
        ValueType::Null => Seq::empty(),
    }
}

impl BurkazTerm {
    /// The term for `value` in field `field_id`.
    pub fn new(field_id: u32, value: &BurkazValue) -> (r: Self)
        requires
            term_value_supported(value@),
            4 + value_encoding(value@).unwrap().len() <= usize::MAX,
        ensures
            r@ == term_bytes(field_id, value@),
    {
        let mut bytes: Vec<u8> = Vec::new();
        field_id.serialize(&mut bytes);
        let _ = encode_value(value, &mut bytes);
        BurkazTerm(bytes)
    }

    pub fn wrap(bytes: Vec<u8>) -> (r: Self)
        ensures
            r@ == bytes@,
    {
        BurkazTerm(bytes)
    }

    pub fn field_id(&self) -> (r: Option<u32>)
        ensures
            r == term_field_id(self@),
    {
        match u32::deserialize(self.0.as_slice(), 0) {
            Ok((id, _)) => {
                assert(self.0@.subrange(0, self.0@.len() as int).subrange(0, 4) =~= self.0@.subrange(
                    0,
                    4,
                ));
                Some(id)
            },
            Err(_) => None,
        }
    }

    /// The encoded value after the field id.
    pub fn val(&self) -> (r: BurkazValueRef<'_>)
        requires
            self@.len() >= 4,
        ensures
            r@ == term_value(self@),
    {
        BurkazValueRef::wrap(slice_subrange(self.0.as_slice(), 4, self.0.len()))
    }

    pub fn as_bytes(&self) -> (r: &[u8])
        ensures
            r@ == self@,
    {
        self.0.as_slice()
    }

    /// Whether the search engine can take this term: a field id and a
    /// complete integer, text or boolean value.
    pub fn is_convertible(&self) -> (r: bool)
        ensures
            r == term_convertible(self@),
    {
        if self.0.len() < 5 {
            return false;
        }
        let val = self.val();
        match val.typ() {
            ValueType::Int64 => val.as_int().is_some(),
            ValueType::Text => val.as_text().is_some(),
            ValueType::Boolean => val.as_bool().is_some(),
            ValueType::Null => false,
        }
    }

    /// The serialized form in which the search engine takes this term.
    pub fn engine_bytes(&self) -> (r: Vec<u8>)
        requires
            term_convertible(self@),
        ensures
            r@ == engine_term_bytes(self@),
    {
        let field_id = match self.field_id() {
            Some(id) => id,
            None => {
                return Vec::new();
            },
        };
        let mut bytes = u32_be_bytes_exec(field_id);
        let val = self.val();
        match val.typ() {
            ValueType::Int64 => {
                let n = match val.as_int() {
                    Some(n) => n,
                    None => return Vec::new(),
                };
                bytes.push(tantivy_i64_type_code());
                let payload = u64_be_bytes_exec(i64_to_monotonic_u64(n));
                bytes.extend_from_slice(payload.as_slice());
            },
            ValueType::Text => {
                let text = match val.as_text() {
                    Some(t) => t,
                    None => return Vec::new(),
                };
                bytes.push(tantivy_str_type_code());
                bytes.extend_from_slice(text.as_bytes());
            },
            ValueType::Boolean => {
                let b = match val.as_bool() {
                    Some(b) => b,
                    None => return Vec::new(),
                };
                bytes.push(tantivy_bool_type_code());
                let payload = u64_be_bytes_exec(bool_to_monotonic_u64(b));
                bytes.extend_from_slice(payload.as_slice());
            },
            ValueType::Null => {
                return Vec::new();
            },
        }
        assert(bytes@ =~= engine_term_bytes(self@));
        bytes
    }

    /// This term as the search engine's term.
    pub fn to_tantivy_term(&self) -> (r: tantivy::Term)
        requires
            term_convertible(self@),
        ensures
            r == engine_term_of(engine_term_bytes(self@)),
    {
        let bytes = self.engine_bytes();
        proof {
            crate::encoding::lemma_u32_le_roundtrip(term_field_id(self@).unwrap());
        }
        tantivy_term_wrap(bytes.as_slice())
    }
}

/// A term built for a value names its field, holds the value's encoding,
/// and can be handed to the search engine.
pub proof fn lemma_term_reads_back(field_id: u32, value: BurkazValueModel)
    requires
        term_value_supported(value),
        4 + value_encoding(value).unwrap().len() <= usize::MAX,
    ensures
        term_field_id(term_bytes(field_id, value)) == Some(field_id),
        term_value(term_bytes(field_id, value)) == value_encoding(value).unwrap(),
        term_convertible(term_bytes(field_id, value)),
{
    let t = term_bytes(field_id, value);
    crate::encoding::lemma_u32_le_roundtrip(field_id);
    assert(t.subrange(0, 4) =~= spec_u32_to_le_bytes(field_id));
    assert(term_value(t) =~= value_encoding(value).unwrap());
    crate::object::lemma_value_reads_back(value);
}

/// The engine term of a term built for an integer, boolean or text value is
/// the engine's own term for that value: the field id big-endian, the kind's
/// tag byte (`b'i'`, `b'o'`, `b's'`), then the whole integer mapped in order
/// to `u64` and written big-endian, the boolean as a big-endian 0 or 1, or
/// the text's UTF-8 bytes.
pub proof fn lemma_engine_term_of_value(field_id: u32, value: BurkazValueModel)
    requires
        term_value_supported(value),
        4 + value_encoding(value).unwrap().len() <= usize::MAX,
    ensures
        value matches BurkazValueModel::I64(x) ==> engine_term_bytes(term_bytes(field_id, value))
            == u32_be_bytes(field_id) + seq![105u8] + u64_be_bytes(monotonic_i64_to_u64(x)),
        value matches BurkazValueModel::Bool(b) ==> engine_term_bytes(term_bytes(field_id, value))
            == u32_be_bytes(field_id) + seq![111u8] + u64_be_bytes(
            if b {
                1u64
            } else {
                0u64
            },
        ),
        value matches BurkazValueModel::Str(t) ==> engine_term_bytes(term_bytes(field_id, value))
            == u32_be_bytes(field_id) + seq![115u8] + encode_utf8(t),
{
    lemma_term_reads_back(field_id, value);
    crate::object::lemma_value_reads_back(value);
    match value {
        BurkazValueModel::Str(t) => {
            let e = value_encoding(value).unwrap();
            let bytes = encode_utf8(t);
            crate::encoding::lemma_u64_le_roundtrip(bytes.len() as u64);
            assert(e.subrange(1, 9) =~= spec_u64_to_le_bytes(bytes.len() as u64));
            assert(crate::object::payload_u64(e) == bytes.len());
            assert(e.subrange(9, 9 + bytes.len() as int) =~= bytes);
            assert(encoded_text_bytes(e) == Some(bytes));
        },
        _ => {},
    }
}

/// Distinct integers give distinct engine terms in the same field: the
/// whole integer, not a part of it, goes into the term.
pub proof fn lemma_engine_term_int_injective(field_id: u32, x: i64, y: i64)
    requires
        x != y,
    ensures
        engine_term_bytes(term_bytes(field_id, BurkazValueModel::I64(x))) != engine_term_bytes(
            term_bytes(field_id, BurkazValueModel::I64(y)),
        ),
{
    crate::encoding::lemma_u64_le_roundtrip(x as u64);
    crate::encoding::lemma_u64_le_roundtrip(y as u64);
    assert(value_encoding(BurkazValueModel::I64(x)).unwrap().len() == 9);
    assert(value_encoding(BurkazValueModel::I64(y)).unwrap().len() == 9);
    lemma_engine_term_of_value(field_id, BurkazValueModel::I64(x));
    lemma_engine_term_of_value(field_id, BurkazValueModel::I64(y));
    let mx = monotonic_i64_to_u64(x);
    let my = monotonic_i64_to_u64(y);
    assert(mx != my) by (bit_vector)
        requires
            mx == (x as u64) ^ 0x8000_0000_0000_0000u64,
            my == (y as u64) ^ 0x8000_0000_0000_0000u64,
            x != y,
    ;
    let a = engine_term_bytes(term_bytes(field_id, BurkazValueModel::I64(x)));
    let b = engine_term_bytes(term_bytes(field_id, BurkazValueModel::I64(y)));
    crate::encoding::lemma_u64_le_roundtrip(mx);
    crate::encoding::lemma_u64_le_roundtrip(my);
    crate::encoding::lemma_u32_le_roundtrip(field_id);
    if a == b {
        let hx = u32_be_bytes(field_id) + seq![105u8];
        assert(hx.len() == 5);
        assert(a.subrange(5, 13) =~= u64_be_bytes(mx));
        assert(b.subrange(5, 13) =~= u64_be_bytes(my));
        assert(u64_be_bytes(mx).reverse() =~= spec_u64_to_le_bytes(mx));
        assert(u64_be_bytes(my).reverse() =~= spec_u64_to_le_bytes(my));
        assert(spec_u64_to_le_bytes(mx) == spec_u64_to_le_bytes(my));
    }
}

} // verus!
