//! Objects: a header of (field id, byte range) entries over one buffer of
//! encoded values, with the binary layout in which objects are stored.
use crate::encoding::{
    lemma_u32_le_bytes_roundtrip, lemma_u32_le_roundtrip, lemma_u64_le_bytes_roundtrip,
    lemma_u64_le_roundtrip, lemma_str_chars_from_bytes, read_i64_le, read_u32_le, read_u64_le, str_from_utf8};
use crate::serializable::{BinaryError, BinarySerializable, rest_from};
use vstd::bytes::*;
use vstd::prelude::*;
use vstd::slice::slice_subrange;
use vstd::string::*;
use vstd::utf8::*;

verus! {

/// The kind of an encoded value, named by the first byte of its encoding.
#[derive(Debug, Copy, Clone, PartialEq, Eq, Structural)]
pub enum ValueType {
    Null,
    Int64,
    Text,
    Boolean,
}

/// The byte that names each kind of value.
pub open spec fn value_type_code(t: ValueType) -> u8 {
    match t {
        ValueType::Null => 0,
        ValueType::Int64 => 1,
        ValueType::Text => 2,
        ValueType::Boolean => 3,
    }
}

/// The kind named by a byte; bytes that name no kind read as `Null`.
pub open spec fn value_type_of_code(code: u8) -> ValueType {
    if code == 1 {
        ValueType::Int64
    } else if code == 2 {
        ValueType::Text
    } else if code == 3 {
        ValueType::Boolean
    } else {
        ValueType::Null
    }
}

impl ValueType {
    /// The byte that names this kind.
    pub fn code(self) -> (r: u8)
        ensures
            r == value_type_code(self),
    {
        match self {
            ValueType::Null => 0,
            ValueType::Int64 => 1,
            ValueType::Text => 2,
            ValueType::Boolean => 3,
        }
    }
}

impl Default for ValueType {
    fn default() -> (r: Self)
        ensures
            r == ValueType::Null,
    {
        ValueType::Null
    }
}

impl DeepView for ValueType {
    type V = ValueType;

    open spec fn deep_view(&self) -> ValueType {
        *self
    }
}

impl BinarySerializable for ValueType {
    /// One byte: the kind's code.
    open spec fn spec_serialize(v: ValueType) -> Seq<u8> {
        seq![value_type_code(v)]
    }

    /// One byte, which must be one of the four codes; another code is
    /// invalid data naming that code.
    open spec fn spec_deserialize(bytes: Seq<u8>) -> Result<(ValueType, nat), BinaryError> {
        if bytes.len() == 0 {
            Err(BinaryError::UnexpectedEof)
        } else if bytes[0] <= 3 {
            Ok((value_type_of_code(bytes[0]), 1))
        } else {
            Err(BinaryError::InvalidValueType(bytes[0]))
        }
    }

    open spec fn spec_serializable(v: ValueType) -> bool {
        true
    }

    fn serialize(&self, writer: &mut Vec<u8>) {
        writer.push(self.code());
    }

    fn deserialize(bytes: &[u8], pos: usize) -> (r: Result<(ValueType, usize), BinaryError>) {
        let (num, p) = match u8::deserialize(bytes, pos) {
            Ok(x) => x,
            Err(e) => return Err(e),
        };
        if num <= 3 {
            let t = if num == 0 {
                ValueType::Null
            } else if num == 1 {
                ValueType::Int64
            } else if num == 2 {
                ValueType::Text
            } else {
                ValueType::Boolean
            };
            Ok((t, p))
        } else {
            Err(BinaryError::InvalidValueType(num))
        }
    }

    proof fn lemma_deserialize_within(bytes: Seq<u8>) {
    }

    proof fn lemma_roundtrip(v: ValueType, rest: Seq<u8>) {
    }
}

/// A value that can be written into an object: the four kinds that have an
/// encoding, and `Unsupported` for every other kind of document value.
#[derive(Debug, Clone)]
pub enum BurkazValue {
    Null,
    I64(i64),
    Str(String),
    Bool(bool),
    Unsupported,
}

/// The mathematical content of a [`BurkazValue`].
pub enum BurkazValueModel {
    Null,
    I64(i64),
    Str(Seq<char>),
    Bool(bool),
    Unsupported,
}

impl View for BurkazValue {
    type V = BurkazValueModel;

    open spec fn view(&self) -> BurkazValueModel {
        match self {
            BurkazValue::Null => BurkazValueModel::Null,
            BurkazValue::I64(v) => BurkazValueModel::I64(*v),
            BurkazValue::Str(s) => BurkazValueModel::Str(s@),
            BurkazValue::Bool(b) => BurkazValueModel::Bool(*b),
            BurkazValue::Unsupported => BurkazValueModel::Unsupported,
        }
    }
}

/// The encoding of a value: its kind's code, then its own bytes.
/// Values of an unsupported kind have none.
pub open spec fn value_encoding(v: BurkazValueModel) -> Option<Seq<u8>> {
    match v {
        BurkazValueModel::Null => Some(seq![value_type_code(ValueType::Null)]),
        BurkazValueModel::I64(i) => Some(
            seq![value_type_code(ValueType::Int64)] + <i64 as BinarySerializable>::spec_serialize(i),
        ),
        BurkazValueModel::Str(s) => Some(
            seq![value_type_code(ValueType::Text)] + <String as BinarySerializable>::spec_serialize(s),
        ),
        BurkazValueModel::Bool(b) => Some(
            seq![value_type_code(ValueType::Boolean)] + <bool as BinarySerializable>::spec_serialize(b),
        ),
        BurkazValueModel::Unsupported => None,
    }
}

/// Appends the encoding of `value` to `out`; nothing for an unsupported kind.
/// Returns whether the kind was supported.
pub(crate) fn encode_value(value: &BurkazValue, out: &mut Vec<u8>) -> (r: bool)
    ensures
        r == (value_encoding(value@) is Some),
        match value_encoding(value@) {
            Some(e) => final(out)@ == old(out)@ + e,
            None => final(out)@ == old(out)@,
        },
{
    let ghost before = out@;
    match value {
        BurkazValue::Null => {
            out.push(ValueType::Null.code());
        },
        BurkazValue::I64(v) => {
            out.push(ValueType::Int64.code());
            v.serialize(out);
        },
        BurkazValue::Str(s) => {
            out.push(ValueType::Text.code());
            s.serialize(out);
        },
        BurkazValue::Bool(b) => {
            out.push(ValueType::Boolean.code());
            b.serialize(out);
        },
        BurkazValue::Unsupported => {
            return false;
        },
    }
    assert(out@ =~= before + value_encoding(value@).unwrap());
    true
}

/// A view of the bytes of one encoded value.
#[derive(Debug, Clone)]
pub struct BurkazValueRef<'a>(&'a [u8]);

impl<'a> View for BurkazValueRef<'a> {
    type V = Seq<u8>;

    closed spec fn view(&self) -> Seq<u8> {
        self.0@
    }
}

/// The little-endian `u64` at bytes `1..9` of an encoded value.
pub open spec fn payload_u64(b: Seq<u8>) -> u64 {
    spec_u64_from_le_bytes(b.subrange(1, 9))
}

/// The integer an encoded value holds, where it is a complete `Int64`.
pub open spec fn encoded_int(b: Seq<u8>) -> Option<i64> {
    if b.len() >= 1 && value_type_of_code(b[0]) == ValueType::Int64 && b.len() >= 9 {
        Some(payload_u64(b) as i64)
    } else {
        None
    }
}

/// The byte range of the UTF-8 text of an encoded `Text` value, where the
/// announced length fits in the bytes.
pub open spec fn encoded_text_bytes(b: Seq<u8>) -> Option<Seq<u8>> {
    if b.len() >= 1 && value_type_of_code(b[0]) == ValueType::Text && b.len() >= 9 && 9
        + (payload_u64(b) as usize) <= b.len() {
        Some(b.subrange(9, 9 + (payload_u64(b) as usize)))
    } else {
        None
    }
}

/// The text an encoded value holds, where it is a complete `Text` value
/// whose bytes are valid UTF-8.
pub open spec fn encoded_text(b: Seq<u8>) -> Option<Seq<char>> {
    match encoded_text_bytes(b) {
        Some(t) => if valid_utf8(t) {
            Some(decode_utf8(t))
        } else {
            None
        },
        None => None,
    }
}

/// The boolean an encoded value holds, where it is a complete `Boolean`:
/// true exactly when its payload byte is 1.
pub open spec fn encoded_bool(b: Seq<u8>) -> Option<bool> {
    if b.len() >= 1 && value_type_of_code(b[0]) == ValueType::Boolean && b.len() >= 2 {
        Some(b[1] == 1u8)
    } else {
        None
    }
}

impl<'a> BurkazValueRef<'a> {
    pub fn wrap(bytes: &'a [u8]) -> (r: Self)
        ensures
            r@ == bytes@,
    {
        BurkazValueRef(bytes)
    }

    /// The bytes of the value.
    pub fn as_bytes(&self) -> (r: &'a [u8])
        ensures
            r@ == self@,
    {
        self.0
    }

    /// The kind named by the first byte; a byte that names no kind reads as `Null`.
    pub fn typ(&self) -> (r: ValueType)
        requires
            self@.len() > 0,
        ensures
            r == value_type_of_code(self@[0]),
    {
        let type_code = self.0[0];
        match type_code {
            0 => ValueType::Null,
            1 => ValueType::Int64,
            2 => ValueType::Text,
            3 => ValueType::Boolean,
            _ => ValueType::Null,
        }
    }

    pub fn as_int(&self) -> (r: Option<i64>)
        requires
            self@.len() > 0,
        ensures
            r == encoded_int(self@),
    {
        if self.typ() != ValueType::Int64 {
            return None;
        }
        read_i64_le_from_bytes(self.0, 1)
    }

    /// The text of a `Text` value. The bytes must be valid UTF-8 for a text
    /// to come back.
    pub fn as_text(&self) -> (r: Option<&'a str>)
        requires
            self@.len() > 0,
        ensures
            r is Some <==> encoded_text(self@) is Some,
            r matches Some(s) ==> s@ == encoded_text(self@).unwrap() && Some(s.spec_bytes())
                == encoded_text_bytes(self@),
    {
        if self.typ() != ValueType::Text {
            return None;
        }
        let bytes: &'a [u8] = self.0;
        let len = match read_u64_le_from_bytes(bytes, 1) {
            Some(l) => l as usize,
            None => return None,
        };
        if len > bytes.len() - 9 {
            return None;
        }
        let str_bytes = slice_subrange(bytes, 9, 9 + len);
        match str_from_utf8(str_bytes) {
            Some(s) => {
                proof {
                    lemma_str_chars_from_bytes(s);
                }
                Some(s)
            },
            None => None,
        }
    }

    pub fn as_bool(&self) -> (r: Option<bool>)
        requires
            self@.len() > 0,
        ensures
            r == encoded_bool(self@),
    {
        if self.typ() != ValueType::Boolean {
            return None;
        }
        if self.0.len() < 2 {
            return None;
        }
        Some(self.0[1] == 1u8)
    }
}

/// An encoded value whose accessor for its kind succeeds.
pub open spec fn value_readable(b: Seq<u8>) -> bool {
    &&& b.len() > 0
    &&& match value_type_of_code(b[0]) {
        ValueType::Null => true,
        ValueType::Int64 => encoded_int(b) is Some,
        ValueType::Text => encoded_text(b) is Some,
        ValueType::Boolean => encoded_bool(b) is Some,
    }
}

/// The value an encoded value holds, read by the accessor for its kind.
pub open spec fn decoded_value(b: Seq<u8>) -> BurkazValueModel {
    match value_type_of_code(b[0]) {
        ValueType::Null => BurkazValueModel::Null,
        ValueType::Int64 => BurkazValueModel::I64(encoded_int(b).unwrap()),
        ValueType::Text => BurkazValueModel::Str(encoded_text(b).unwrap()),
        ValueType::Boolean => BurkazValueModel::Bool(encoded_bool(b).unwrap()),
    }
}

impl<'a> BurkazValueRef<'a> {
    /// The value held, read by the accessor for its kind.
    pub fn as_value(&self) -> (r: BurkazValue)
        requires
            value_readable(self@),
        ensures
            r@ == decoded_value(self@),
    {
        match self.typ() {
            ValueType::Null => BurkazValue::Null,
            ValueType::Int64 => match self.as_int() {
                Some(v) => BurkazValue::I64(v),
                None => BurkazValue::Null,
            },
            ValueType::Text => match self.as_text() {
                Some(t) => BurkazValue::Str(t.to_owned()),
                None => BurkazValue::Null,
            },
            ValueType::Boolean => match self.as_bool() {
                Some(b) => BurkazValue::Bool(b),
                None => BurkazValue::Null,
            },
        }
    }
}

/// The little-endian `u64` at `offset`, where eight bytes are there.
fn read_u64_le_from_bytes(bytes: &[u8], offset: usize) -> (r: Option<u64>)
    ensures
        r == (if offset + 8 <= bytes@.len() {
            Some(spec_u64_from_le_bytes(bytes@.subrange(offset as int, offset + 8)))
        } else {
            None
        }),
{
    if offset > bytes.len() || bytes.len() - offset < 8 {
        return None;
    }
    Some(read_u64_le(slice_subrange(bytes, offset, offset + 8)))
}

/// The little-endian `i64` at `offset`, where eight bytes are there.
fn read_i64_le_from_bytes(bytes: &[u8], offset: usize) -> (r: Option<i64>)
    ensures
        r == (if offset + 8 <= bytes@.len() {
            Some(spec_u64_from_le_bytes(bytes@.subrange(offset as int, offset + 8)) as i64)
        } else {
            None
        }),
{
    if offset > bytes.len() || bytes.len() - offset < 8 {
        return None;
    }
    Some(read_i64_le(slice_subrange(bytes, offset, offset + 8)))
}

/// One header entry: a field id and the byte range of its value.
#[derive(Debug, Copy, Clone, PartialEq, Eq, Structural)]
pub struct HeaderEntry {
    pub field_id: u32,
    pub start: u32,
    pub end: u32,
}

/// An object: header entries that point into one buffer of encoded values.
#[derive(Debug, Clone)]
pub struct BurkazObject {
    header: Vec<HeaderEntry>,
    bytes: Vec<u8>,
}

/// The mathematical content of an object.
pub struct ObjectModel {
    pub header: Seq<HeaderEntry>,
    pub bytes: Seq<u8>,
}

impl View for BurkazObject {
    type V = ObjectModel;

    closed spec fn view(&self) -> ObjectModel {
        ObjectModel { header: self.header@, bytes: self.bytes@ }
    }
}

impl Default for BurkazObject {
    fn default() -> (r: Self)
        ensures
            r@.header == Seq::<HeaderEntry>::empty(),
            r@.bytes == Seq::<u8>::empty(),
    {
        BurkazObject { header: Vec::new(), bytes: Vec::new() }
    }
}

/// An entry's range lies inside a buffer of `len` bytes.
pub open spec fn entry_in_bounds(e: HeaderEntry, len: nat) -> bool {
    e.start <= e.end && e.end <= len
}

/// Every header entry of the object points inside its buffer.
pub open spec fn object_well_formed(o: ObjectModel) -> bool {
    forall|i: int| 0 <= i < o.header.len() ==> entry_in_bounds(#[trigger] o.header[i], o.bytes.len())
}

/// The encoded values of field `field_id`, in header order; entries whose
/// range lies outside the buffer are passed over.
pub open spec fn field_values_of(header: Seq<HeaderEntry>, bytes: Seq<u8>, field_id: u32) -> Seq<
    Seq<u8>,
>
    decreases header.len(),
{
    if header.len() == 0 {
        Seq::empty()
    } else {
        let before = field_values_of(header.drop_last(), bytes, field_id);
        let e = header.last();
        if e.field_id == field_id && entry_in_bounds(e, bytes.len()) {
            before.push(bytes.subrange(e.start as int, e.end as int))
        } else {
            before
        }
    }
}

/// The twelve bytes of a header entry: field id, start, end, each a little-endian `u32`.
pub open spec fn entry_bytes(e: HeaderEntry) -> Seq<u8> {
    spec_u32_to_le_bytes(e.field_id) + spec_u32_to_le_bytes(e.start) + spec_u32_to_le_bytes(e.end)
}

/// The header entries one after another.
pub open spec fn header_bytes(header: Seq<HeaderEntry>) -> Seq<u8>
    decreases header.len(),
{
    if header.len() == 0 {
        Seq::empty()
    } else {
        header_bytes(header.drop_last()) + entry_bytes(header.last())
    }
}

/// The stored form of an object: the number of header entries as a
/// little-endian `u64`, the entries, then the value buffer.
pub open spec fn object_to_bytes(o: ObjectModel) -> Seq<u8> {
    spec_u64_to_le_bytes(o.header.len() as u64) + header_bytes(o.header) + o.bytes
}

/// The header entry whose twelve bytes start at `pos`.
pub open spec fn entry_at(b: Seq<u8>, pos: int) -> HeaderEntry {
    HeaderEntry {
        field_id: spec_u32_from_le_bytes(b.subrange(pos, pos + 4)),
        start: spec_u32_from_le_bytes(b.subrange(pos + 4, pos + 8)),
        end: spec_u32_from_le_bytes(b.subrange(pos + 8, pos + 12)),
    }
}

/// The number of header entries that stored bytes announce.
pub open spec fn announced_entries(b: Seq<u8>) -> nat {
    spec_u64_from_le_bytes(b.subrange(0, 8)) as nat
}

/// The object that stored bytes hold: present where the bytes start with
/// an entry count and that many complete entries; everything after the
/// entries is the value buffer.
pub open spec fn object_from_bytes(b: Seq<u8>) -> Option<ObjectModel> {
    if b.len() < 8 {
        None
    } else if 8 + 12 * announced_entries(b) > b.len() {
        None
    } else {
        Some(
            ObjectModel {
                header: Seq::new(announced_entries(b), |i: int| entry_at(b, 8 + 12 * i)),
                bytes: b.subrange(8 + 12 * announced_entries(b) as int, b.len() as int),
            },
        )
    }
}

/// Bytes that end before header entry `i` does, with `i` below the
/// announced count, hold no object.
proof fn lemma_truncated_header(b: Seq<u8>, i: nat)
    requires
        b.len() >= 8,
        i < announced_entries(b),
        b.len() < 8 + 12 * (i + 1),
    ensures
        object_from_bytes(b) is None,
{
}

/// The object after appending the encoded value `e` for field `field_id`:
/// one more header entry, whose range is where `e` lands in the buffer
/// (offsets kept as `u32`), and `e` at the end of the buffer.
pub open spec fn object_with_value(o: ObjectModel, field_id: u32, e: Seq<u8>) -> ObjectModel {
    ObjectModel {
        header: o.header.push(
            HeaderEntry {
                field_id,
                start: o.bytes.len() as u32,
                end: (o.bytes.len() + e.len()) as u32,
            },
        ),
        bytes: o.bytes + e,
    }
}

impl BurkazObject {
    /// Appends `value` for field `field_id`; a value of an unsupported kind
    /// leaves the object as it was.
    pub fn write_value(&mut self, field_id: u32, value: &BurkazValue)
        requires
            value_encoding(value@) matches Some(e) ==> old(self)@.bytes.len() + e.len()
                <= usize::MAX,
        ensures
            match value_encoding(value@) {
                Some(e) => final(self)@.header == object_with_value(old(self)@, field_id, e).header
                    && final(self)@.bytes == object_with_value(old(self)@, field_id, e).bytes,
                None => final(self)@.header == old(self)@.header && final(self)@.bytes == old(
                    self,
                )@.bytes,
            },
    {
        let mut value_bytes: Vec<u8> = Vec::new();
        if !encode_value(value, &mut value_bytes) {
            return;
        }
        let start = self.bytes.len();
        let end = start + value_bytes.len();
        self.header.push(HeaderEntry { field_id, start: start as u32, end: end as u32 });
        self.bytes.extend_from_slice(value_bytes.as_slice());
        assert(self.bytes@ =~= old(self)@.bytes + value_bytes@);
    }

    /// The encoded values written for field `field_id`, in the order they
    /// were written; entries whose range lies outside the buffer are passed over.
    pub fn field_values(&self, field_id: u32) -> (r: Vec<BurkazValueRef<'_>>)
        ensures
            r@.len() == field_values_of(self@.header, self@.bytes, field_id).len(),
            forall|i: int|
                0 <= i < r@.len() ==> #[trigger] r@[i]@ == field_values_of(
                    self@.header,
                    self@.bytes,
                    field_id,
                )[i],
    {
        let mut out: Vec<BurkazValueRef<'_>> = Vec::new();
        let mut i: usize = 0;
        while i < self.header.len()
            invariant
                i <= self.header@.len(),
                out@.len() == field_values_of(self.header@.subrange(0, i as int), self.bytes@, field_id).len(),
                forall|k: int|
                    0 <= k < out@.len() ==> #[trigger] out@[k]@ == field_values_of(
                        self.header@.subrange(0, i as int),
                        self.bytes@,
                        field_id,
                    )[k],
            decreases self.header@.len() - i,
        {
            let e = self.header[i];
            proof {
                assert(self.header@.subrange(0, i + 1).drop_last() =~= self.header@.subrange(0, i as int));
            }
            if e.field_id == field_id {
                let s = e.start as usize;
                let t = e.end as usize;
                if s <= t && t <= self.bytes.len() {
                    out.push(BurkazValueRef(slice_subrange(self.bytes.as_slice(), s, t)));
                }
            }
            i = i + 1;
        }
        assert(self.header@.subrange(0, self.header@.len() as int) =~= self.header@);
        out
    }

    pub fn from_bytes(bytes: &[u8]) -> (r: Option<Self>)
        ensures
            match object_from_bytes(bytes@) {
                Some(o) => r matches Some(x) && x@ == o,
                None => r is None,
            },
    {
        let mut object = BurkazObject::default();
        let (header_len, mut pos) = match u64::deserialize(bytes, 0) {
            Ok(x) => x,
            Err(_) => return None,
        };
        assert(bytes@.subrange(0, bytes@.len() as int).subrange(0, 8) =~= bytes@.subrange(0, 8));
        let ghost n = announced_entries(bytes@);
        let mut i: u64 = 0;
        while i < header_len
            invariant
                header_len == n,
                n == announced_entries(bytes@),
                bytes@.len() >= 8,
                i <= header_len,
                pos == 8 + 12 * i,
                pos <= bytes@.len(),
                object.bytes@ == Seq::<u8>::empty(),
                object.header@ =~= Seq::new(i as nat, |k: int| entry_at(bytes@, 8 + 12 * k)),
            decreases header_len - i,
        {
            let ghost p0 = pos as int;
            let (field_id, p1) = match u32::deserialize(bytes, pos) {
                Ok(x) => x,
                Err(_) => {
                    proof {
                        lemma_truncated_header(bytes@, i as nat);
                    }
                    return None;
                },
            };
            assert(p1 == p0 + 4);
            let (range_start, p2) = match u32::deserialize(bytes, p1) {
                Ok(x) => x,
                Err(_) => {
                    proof {
                        lemma_truncated_header(bytes@, i as nat);
                    }
                    return None;
                },
            };
            assert(p2 == p0 + 8);
            let (range_end, p3) = match u32::deserialize(bytes, p2) {
                Ok(x) => x,
                Err(_) => {
                    proof {
                        lemma_truncated_header(bytes@, i as nat);
                    }
                    return None;
                },
            };
            proof {
                assert(rest_from(bytes@, p0).subrange(0, 4) =~= bytes@.subrange(p0, p0 + 4));
                assert(rest_from(bytes@, p0 + 4).subrange(0, 4) =~= bytes@.subrange(p0 + 4, p0 + 8));
                assert(rest_from(bytes@, p0 + 8).subrange(0, 4) =~= bytes@.subrange(p0 + 8, p0 + 12));
            }
            object.header.push(HeaderEntry { field_id, start: range_start, end: range_end });
            pos = p3;
            i = i + 1;
        }
        let tail = slice_subrange(bytes, pos, bytes.len());
        object.bytes.extend_from_slice(tail);
        assert(object.bytes@ =~= tail@);
        Some(object)
    }

    pub fn to_bytes(&self) -> (r: Option<Vec<u8>>)
        ensures
            r matches Some(b) && b@ == object_to_bytes(self@) && object_from_bytes(b@) == Some(
                self@,
            ),
    {
        proof {
            lemma_header_fits(self);
            lemma_object_bytes_roundtrip(self@);
        }
        let mut writer: Vec<u8> = Vec::new();
        (self.header.len() as u64).serialize(&mut writer);
        let mut i: usize = 0;
        while i < self.header.len()
            invariant
                i <= self.header@.len(),
                writer@ =~= spec_u64_to_le_bytes(self.header@.len() as u64) + header_bytes(
                    self.header@.subrange(0, i as int),
                ),
            decreases self.header@.len() - i,
        {
            let e = self.header[i];
            e.field_id.serialize(&mut writer);
            e.start.serialize(&mut writer);
            e.end.serialize(&mut writer);
            proof {
                let h = self.header@.subrange(0, i + 1);
                assert(h.drop_last() =~= self.header@.subrange(0, i as int));
            }
            i = i + 1;
        }
        assert(self.header@.subrange(0, self.header@.len() as int) =~= self.header@);
        writer.extend_from_slice(self.bytes.as_slice());
        assert(writer@ =~= object_to_bytes(self@));
        Some(writer)
    }
}

/// The header bytes are twelve per entry, and entry `k` occupies bytes
/// `12k .. 12k + 12`.
proof fn lemma_header_bytes_layout(h: Seq<HeaderEntry>)
    ensures
        header_bytes(h).len() == 12 * h.len(),
        forall|k: int|
            0 <= k < h.len() ==> #[trigger] header_bytes(h).subrange(12 * k, 12 * k + 12)
                == entry_bytes(h[k]),
    decreases h.len(),
{
    if h.len() > 0 {
        let init = h.drop_last();
        lemma_header_bytes_layout(init);
        lemma_u32_le_roundtrip(h.last().field_id);
        lemma_u32_le_roundtrip(h.last().start);
        lemma_u32_le_roundtrip(h.last().end);
        let hb = header_bytes(h);
        assert(hb == header_bytes(init) + entry_bytes(h.last()));
        assert forall|k: int| 0 <= k < h.len() implies #[trigger] header_bytes(h).subrange(
            12 * k,
            12 * k + 12,
        ) == entry_bytes(h[k]) by {
            if k < init.len() {
                assert(hb.subrange(12 * k, 12 * k + 12) =~= header_bytes(init).subrange(
                    12 * k,
                    12 * k + 12,
                ));
                assert(init[k] == h[k]);
            } else {
                assert(hb.subrange(12 * k, 12 * k + 12) =~= entry_bytes(h.last()));
            }
        }
    }
}

/// Reading the entry at the start of an entry's own twelve bytes gives the entry.
proof fn lemma_entry_roundtrip(e: HeaderEntry, b: Seq<u8>, pos: int)
    requires
        0 <= pos,
        pos + 12 <= b.len(),
        b.subrange(pos, pos + 12) == entry_bytes(e),
    ensures
        entry_at(b, pos) == e,
{
    lemma_u32_le_roundtrip(e.field_id);
    lemma_u32_le_roundtrip(e.start);
    lemma_u32_le_roundtrip(e.end);
    let w = entry_bytes(e);
    assert(b.subrange(pos, pos + 4) =~= w.subrange(0, 4));
    assert(b.subrange(pos + 4, pos + 8) =~= w.subrange(4, 8));
    assert(b.subrange(pos + 8, pos + 12) =~= w.subrange(8, 12));
    assert(w.subrange(0, 4) =~= spec_u32_to_le_bytes(e.field_id));
    assert(w.subrange(4, 8) =~= spec_u32_to_le_bytes(e.start));
    assert(w.subrange(8, 12) =~= spec_u32_to_le_bytes(e.end));
}

/// The twelve bytes of the entry read at `pos` are the bytes it was read from.
proof fn lemma_entry_bytes_of_read(b: Seq<u8>, pos: int)
    requires
        0 <= pos,
        pos + 12 <= b.len(),
    ensures
        entry_bytes(entry_at(b, pos)) == b.subrange(pos, pos + 12),
{
    lemma_u32_le_bytes_roundtrip(b.subrange(pos, pos + 4));
    lemma_u32_le_bytes_roundtrip(b.subrange(pos + 4, pos + 8));
    lemma_u32_le_bytes_roundtrip(b.subrange(pos + 8, pos + 12));
    assert(entry_bytes(entry_at(b, pos)) =~= b.subrange(pos, pos + 12));
}

/// The entries read from `b` one after another give back the bytes they were read from.
proof fn lemma_header_bytes_of_read(b: Seq<u8>, n: nat)
    requires
        8 + 12 * n <= b.len(),
    ensures
        header_bytes(Seq::new(n, |i: int| entry_at(b, 8 + 12 * i))) == b.subrange(8, 8 + 12 * (n as int)),
    decreases n,
{
    let h = Seq::new(n, |i: int| entry_at(b, 8 + 12 * i));
    if n == 0 {
        assert(header_bytes(h) =~= b.subrange(8, 8));
    } else {
        let m = (n - 1) as nat;
        lemma_header_bytes_of_read(b, m);
        assert(h.drop_last() =~= Seq::new(m, |i: int| entry_at(b, 8 + 12 * i)));
        lemma_entry_bytes_of_read(b, 8 + 12 * (m as int));
        assert(b.subrange(8, 8 + 12 * (n as int)) =~= b.subrange(8, 8 + 12 * (m as int)) + b.subrange(
            8 + 12 * (m as int),
            8 + 12 * (n as int),
        ));
    }
}

/// The header of an object has at most `usize::MAX` entries, so its count
/// fits the stored `u64` prefix.
pub proof fn lemma_header_fits(o: &BurkazObject)
    ensures
        o@.header.len() <= usize::MAX,
{
    assert(o.header.len() == o.header@.len());
}

/// Storing an object and reading the stored bytes gives the object back.
pub proof fn lemma_object_bytes_roundtrip(o: ObjectModel)
    requires
        o.header.len() <= u64::MAX,
    ensures
        object_from_bytes(object_to_bytes(o)) == Some(o),
{
    let b = object_to_bytes(o);
    let n = o.header.len();
    lemma_u64_le_roundtrip(n as u64);
    lemma_header_bytes_layout(o.header);
    assert(b.subrange(0, 8) =~= spec_u64_to_le_bytes(n as u64));
    assert(announced_entries(b) == n);
    let got = object_from_bytes(b).unwrap();
    assert forall|k: int| 0 <= k < n implies got.header[k] == o.header[k] by {
        assert(b.subrange(8 + 12 * k, 8 + 12 * k + 12) =~= header_bytes(o.header).subrange(
            12 * k,
            12 * k + 12,
        ));
        lemma_entry_roundtrip(o.header[k], b, 8 + 12 * k);
    }
    assert(got.header =~= o.header);
    assert(got.bytes =~= o.bytes);
}

/// Bytes that hold an object are exactly the stored form of that object.
pub proof fn lemma_object_bytes_canonical(b: Seq<u8>)
    requires
        object_from_bytes(b) is Some,
    ensures
        object_to_bytes(object_from_bytes(b).unwrap()) == b,
{
    let o = object_from_bytes(b).unwrap();
    let n = announced_entries(b);
    lemma_header_bytes_of_read(b, n);
    lemma_u64_le_bytes_roundtrip(b.subrange(0, 8));
    assert(o.header.len() == n);
    assert(b =~= b.subrange(0, 8) + b.subrange(8, 8 + 12 * (n as int)) + b.subrange(
        8 + 12 * (n as int),
        b.len() as int,
    ));
}

/// Growing the buffer does not change the values of a header whose
/// entries all lie inside the old buffer.
proof fn lemma_field_values_grow(h: Seq<HeaderEntry>, bytes: Seq<u8>, extra: Seq<u8>, field_id: u32)
    requires
        forall|i: int| 0 <= i < h.len() ==> entry_in_bounds(#[trigger] h[i], bytes.len()),
    ensures
        field_values_of(h, bytes + extra, field_id) == field_values_of(h, bytes, field_id),
    decreases h.len(),
{
    if h.len() > 0 {
        let init = h.drop_last();
        assert forall|i: int| 0 <= i < init.len() implies entry_in_bounds(
            #[trigger] init[i],
            bytes.len(),
        ) by {
            assert(init[i] == h[i]);
        }
        lemma_field_values_grow(init, bytes, extra, field_id);
        let e = h.last();
        assert(entry_in_bounds(h[h.len() - 1], bytes.len()));
        assert((bytes + extra).subrange(e.start as int, e.end as int) =~= bytes.subrange(
            e.start as int,
            e.end as int,
        ));
    }
}

/// Read after write: in a well-formed object whose buffer stays below
/// 2^32 bytes, appending a value adds its encoding as the last value of its
/// field, leaves the values of every other field as they were, and keeps
/// the object well-formed.
pub proof fn lemma_write_then_read(o: ObjectModel, field_id: u32, e: Seq<u8>, other: u32)
    requires
        object_well_formed(o),
        o.bytes.len() + e.len() <= u32::MAX,
        other != field_id,
    ensures
        object_well_formed(object_with_value(o, field_id, e)),
        field_values_of(object_with_value(o, field_id, e).header, object_with_value(o, field_id, e).bytes, field_id)
            == field_values_of(o.header, o.bytes, field_id).push(e),
        field_values_of(object_with_value(o, field_id, e).header, object_with_value(o, field_id, e).bytes, other)
            == field_values_of(o.header, o.bytes, other),
{
    let o2 = object_with_value(o, field_id, e);
    lemma_field_values_grow(o.header, o.bytes, e, field_id);
    lemma_field_values_grow(o.header, o.bytes, e, other);
    assert(o2.header.drop_last() =~= o.header);
    assert(o2.bytes.subrange(o.bytes.len() as int, o2.bytes.len() as int) =~= e);
    assert forall|i: int| 0 <= i < o2.header.len() implies entry_in_bounds(
        #[trigger] o2.header[i],
        o2.bytes.len(),
    ) by {
        if i < o.header.len() {
            assert(o2.header[i] == o.header[i]);
            assert(entry_in_bounds(o.header[i], o.bytes.len()));
        }
    }
}

/// The object built from an empty one by writing each (field id, value)
/// pair in order; values of an unsupported kind leave it as it was.
pub open spec fn object_after_writes(writes: Seq<(u32, BurkazValueModel)>) -> ObjectModel
    decreases writes.len(),
{
    if writes.len() == 0 {
        ObjectModel { header: Seq::empty(), bytes: Seq::empty() }
    } else {
        let o = object_after_writes(writes.drop_last());
        match value_encoding(writes.last().1) {
            Some(e) => object_with_value(o, writes.last().0, e),
            None => o,
        }
    }
}

/// The writes of a supported kind, in order.
pub open spec fn supported_writes(writes: Seq<(u32, BurkazValueModel)>) -> Seq<
    (u32, BurkazValueModel),
>
    decreases writes.len(),
{
    if writes.len() == 0 {
        Seq::empty()
    } else {
        let before = supported_writes(writes.drop_last());
        if value_encoding(writes.last().1) is Some {
            before.push(writes.last())
        } else {
            before
        }
    }
}

/// The values of a supported kind written to field `field_id`, in order.
pub open spec fn written_values(writes: Seq<(u32, BurkazValueModel)>, field_id: u32) -> Seq<
    BurkazValueModel,
>
    decreases writes.len(),
{
    if writes.len() == 0 {
        Seq::empty()
    } else {
        let before = written_values(writes.drop_last(), field_id);
        if writes.last().0 == field_id && value_encoding(writes.last().1) is Some {
            before.push(writes.last().1)
        } else {
            before
        }
    }
}

/// Reading after a sequence of writes: in an object built from an empty one
/// by writes whose buffer stays within `u32::MAX` bytes, the object is
/// well-formed; its header has one entry per supported write, in order,
/// each naming that write's field and holding that value's encoding; and
/// each field lists exactly the encodings of the supported values written
/// to it, in order, each reading back as the value written.
pub proof fn lemma_writes_then_read(writes: Seq<(u32, BurkazValueModel)>)
    requires
        object_after_writes(writes).bytes.len() <= u32::MAX,
    ensures
        object_well_formed(object_after_writes(writes)),
        object_after_writes(writes).header.len() == supported_writes(writes).len(),
        forall|i: int|
            0 <= i < supported_writes(writes).len() ==> {
                let h = #[trigger] object_after_writes(writes).header[i];
                &&& h.field_id == supported_writes(writes)[i].0
                &&& object_after_writes(writes).bytes.subrange(h.start as int, h.end as int)
                    == value_encoding(supported_writes(writes)[i].1).unwrap()
            },
        forall|f: u32|
            #![trigger written_values(writes, f)]
            {
                let vals = field_values_of(
                    object_after_writes(writes).header,
                    object_after_writes(writes).bytes,
                    f,
                );
                &&& vals.len() == written_values(writes, f).len()
                &&& forall|i: int|
                    0 <= i < vals.len() ==> #[trigger] vals[i] == value_encoding(
                        written_values(writes, f)[i],
                    ).unwrap() && value_readable(vals[i]) && decoded_value(vals[i])
                        == written_values(writes, f)[i]
            },
    decreases writes.len(),
{
    if writes.len() == 0 {
        assert forall|f: u32| #![trigger written_values(writes, f)] true by {}
    } else {
        let init = writes.drop_last();
        let o = object_after_writes(init);
        let w = writes.last();
        let o2 = object_after_writes(writes);
        match value_encoding(w.1) {
            Some(e) => {
                assert(o.bytes.len() <= o2.bytes.len());
                lemma_writes_then_read(init);
                let other: u32 = if w.0 == 0 {
                    1
                } else {
                    0
                };
                lemma_write_then_read(o, w.0, e, other);
                lemma_value_roundtrip(w.1);
                assert(supported_writes(writes) == supported_writes(init).push(w));
                assert forall|i: int| 0 <= i < supported_writes(writes).len() implies {
                    let h = #[trigger] o2.header[i];
                    &&& h.field_id == supported_writes(writes)[i].0
                    &&& o2.bytes.subrange(h.start as int, h.end as int) == value_encoding(
                        supported_writes(writes)[i].1,
                    ).unwrap()
                } by {
                    if i < o.header.len() {
                        let h = o.header[i];
                        assert(o2.header[i] == h);
                        assert(entry_in_bounds(h, o.bytes.len()));
                        assert(o2.bytes.subrange(h.start as int, h.end as int) =~= o.bytes.subrange(
                            h.start as int,
                            h.end as int,
                        ));
                    } else {
                        assert(o2.bytes.subrange(o.bytes.len() as int, o2.bytes.len() as int)
                            =~= e);
                    }
                }
                assert forall|f: u32| #![trigger written_values(writes, f)] {
                    let vals = field_values_of(o2.header, o2.bytes, f);
                    &&& vals.len() == written_values(writes, f).len()
                    &&& forall|i: int|
                        0 <= i < vals.len() ==> #[trigger] vals[i] == value_encoding(
                            written_values(writes, f)[i],
                        ).unwrap() && value_readable(vals[i]) && decoded_value(vals[i])
                            == written_values(writes, f)[i]
                } by {
                    let old_vals = field_values_of(o.header, o.bytes, f);
                    assert(written_values(init, f) == written_values(init, f));
                    if f == w.0 {
                        assert(written_values(writes, f) == written_values(init, f).push(w.1));
                    } else {
                        lemma_write_then_read(o, w.0, e, f);
                        assert(written_values(writes, f) == written_values(init, f));
                    }
                }
            },
            None => {
                lemma_writes_then_read(init);
                assert(supported_writes(writes) == supported_writes(init));
                assert forall|f: u32| #![trigger written_values(writes, f)] {
                    let vals = field_values_of(o2.header, o2.bytes, f);
                    &&& vals.len() == written_values(writes, f).len()
                    &&& forall|i: int|
                        0 <= i < vals.len() ==> #[trigger] vals[i] == value_encoding(
                            written_values(writes, f)[i],
                        ).unwrap() && value_readable(vals[i]) && decoded_value(vals[i])
                            == written_values(writes, f)[i]
                } by {
                    assert(written_values(init, f) == written_values(init, f));
                    assert(written_values(writes, f) == written_values(init, f));
                }
            },
        }
    }
}

/// An encoded value reads back as the value it encodes: its first byte
/// names its kind, and the accessor of that kind returns the value.
pub proof fn lemma_value_reads_back(v: BurkazValueModel)
    requires
        value_encoding(v) matches Some(e) ==> e.len() <= usize::MAX,
    ensures
        value_encoding(v) matches Some(e) ==> e.len() > 0,
        v matches BurkazValueModel::Null ==> value_type_of_code(value_encoding(v).unwrap()[0])
            == ValueType::Null,
        v matches BurkazValueModel::I64(i) ==> value_type_of_code(value_encoding(v).unwrap()[0])
            == ValueType::Int64 && encoded_int(value_encoding(v).unwrap()) == Some(i),
        v matches BurkazValueModel::Str(s) ==> value_type_of_code(value_encoding(v).unwrap()[0])
            == ValueType::Text && encoded_text(value_encoding(v).unwrap()) == Some(s),
        v matches BurkazValueModel::Bool(b) ==> value_type_of_code(value_encoding(v).unwrap()[0])
            == ValueType::Boolean && encoded_bool(value_encoding(v).unwrap()) == Some(b),
{
    match v {
        BurkazValueModel::I64(i) => {
            let e = value_encoding(v).unwrap();
            lemma_u64_le_roundtrip(i as u64);
            assert(e.subrange(1, 9) =~= spec_u64_to_le_bytes(i as u64));
            crate::encoding::lemma_i64_bits_roundtrip(i);
        },
        BurkazValueModel::Str(s) => {
            let e = value_encoding(v).unwrap();
            let t = encode_utf8(s);
            lemma_u64_le_roundtrip(t.len() as u64);
            assert(e.subrange(1, 9) =~= spec_u64_to_le_bytes(t.len() as u64));
            assert(payload_u64(e) == t.len());
            assert(e.subrange(9, 9 + t.len() as int) =~= t);
            encode_utf8_valid_utf8(s);
            encode_utf8_decode_utf8(s);
        },
        _ => {},
    }
}

/// A value of a supported kind, encoded and read back, is the same value.
pub proof fn lemma_value_roundtrip(v: BurkazValueModel)
    requires
        value_encoding(v) is Some,
        value_encoding(v).unwrap().len() <= usize::MAX,
    ensures
        value_readable(value_encoding(v).unwrap()),
        decoded_value(value_encoding(v).unwrap()) == v,
{
    lemma_value_reads_back(v);
}

proof fn lemma_supported_writes_encode(writes: Seq<(u32, BurkazValueModel)>)
    ensures
        forall|i: int|
            0 <= i < supported_writes(writes).len() ==> value_encoding(
                (#[trigger] supported_writes(writes)[i]).1,
            ) is Some,
    decreases writes.len(),
{
    if writes.len() > 0 {
        lemma_supported_writes_encode(writes.drop_last());
        let before = supported_writes(writes.drop_last());
        assert forall|i: int| 0 <= i < supported_writes(writes).len() implies value_encoding(
            (#[trigger] supported_writes(writes)[i]).1,
        ) is Some by {
            if i < before.len() {
                assert(supported_writes(writes)[i] == before[i]);
            }
        }
    }
}

/// Walking after a sequence of writes: in an object built from an empty one
/// by writes whose buffer stays within `u32::MAX` bytes, the walk meets one
/// header entry per supported write, in writing order across all fields;
/// each lies inside the buffer, names that write's field, and holds bytes
/// that read back as the value written. Past the last entry the walk ends.
pub proof fn lemma_writes_then_walk(writes: Seq<(u32, BurkazValueModel)>)
    requires
        object_after_writes(writes).bytes.len() <= u32::MAX,
    ensures
        object_after_writes(writes).header.len() == supported_writes(writes).len(),
        forall|i: int|
            0 <= i < supported_writes(writes).len() ==> {
                let h = #[trigger] object_after_writes(writes).header[i];
                let b = object_after_writes(writes).bytes.subrange(h.start as int, h.end as int);
                &&& entry_in_bounds(h, object_after_writes(writes).bytes.len())
                &&& h.field_id == supported_writes(writes)[i].0
                &&& value_readable(b)
                &&& decoded_value(b) == supported_writes(writes)[i].1
            },
{
    lemma_writes_then_read(writes);
    lemma_supported_writes_encode(writes);
    let o = object_after_writes(writes);
    assert forall|i: int| 0 <= i < supported_writes(writes).len() implies {
        let h = #[trigger] o.header[i];
        let b = o.bytes.subrange(h.start as int, h.end as int);
        &&& entry_in_bounds(h, o.bytes.len())
        &&& h.field_id == supported_writes(writes)[i].0
        &&& value_readable(b)
        &&& decoded_value(b) == supported_writes(writes)[i].1
    } by {
        let h = o.header[i];
        assert(entry_in_bounds(h, o.bytes.len()));
        let v = supported_writes(writes)[i].1;
        assert(o.bytes.subrange(h.start as int, h.end as int) == value_encoding(v).unwrap());
        lemma_value_roundtrip(v);
    }
}

/// Walks the header of an object entry by entry, yielding each field id
/// with its encoded value. An entry whose range lies outside the buffer
/// yields `None` and the walk goes on after it.
pub struct BurkazFieldValuesIter<'a> {
    object: &'a BurkazObject,
    position: usize,
}

impl<'a> BurkazFieldValuesIter<'a> {
    pub fn new(object: &'a BurkazObject) -> (r: Self)
        ensures
            r.object() == object@,
            r.position() == 0,
    {
        BurkazFieldValuesIter { object, position: 0 }
    }

    /// The object walked.
    pub closed spec fn object(&self) -> ObjectModel {
        self.object@
    }

    /// How many header entries have been walked.
    pub closed spec fn position(&self) -> nat {
        self.position as nat
    }

    pub fn next(&mut self) -> (r: Option<(u32, BurkazValueRef<'a>)>)
        ensures
            final(self).object() == old(self).object(),
            ({
                let o = old(self).object();
                let p = old(self).position();
                if p < o.header.len() {
                    &&& final(self).position() == p + 1
                    &&& if entry_in_bounds(o.header[p as int], o.bytes.len()) {
                        r matches Some((f, v)) && f == o.header[p as int].field_id && v@
                            == o.bytes.subrange(
                            o.header[p as int].start as int,
                            o.header[p as int].end as int,
                        )
                    } else {
                        r is None
                    }
                } else {
                    final(self).position() == p && r is None
                }
            }),
    {
        let object: &'a BurkazObject = self.object;
        if self.position >= object.header.len() {
            return None;
        }
        let e = object.header[self.position];
        self.position = self.position + 1;
        let s = e.start as usize;
        let t = e.end as usize;
        if s <= t && t <= object.bytes.len() {
            Some((e.field_id, BurkazValueRef(slice_subrange(object.bytes.as_slice(), s, t))))
        } else {
            None
        }
    }
}

/// The items of an array value: encoded values never hold arrays, so there are none.
pub struct EmptyArrayIter<'a> {
    _p: std::marker::PhantomData<&'a ()>,
}

impl<'a> EmptyArrayIter<'a> {
    pub fn new() -> Self {
        EmptyArrayIter { _p: std::marker::PhantomData }
    }

    pub fn next(&mut self) -> (r: Option<BurkazValueRef<'a>>)
        ensures
            r is None,
    {
        None
    }
}

/// The entries of an object value: encoded values never hold objects, so there are none.
pub struct EmptyObjectIter<'a> {
    _p: std::marker::PhantomData<&'a ()>,
}

impl<'a> EmptyObjectIter<'a> {
    pub fn new() -> Self {
        EmptyObjectIter { _p: std::marker::PhantomData }
    }

    pub fn next(&mut self) -> (r: Option<(&'a str, BurkazValueRef<'a>)>)
        ensures
            r is None,
    {
        None
    }
}

} // verus!
