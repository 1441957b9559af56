//! The binary layout of the values stored in objects and terms: fixed-width
//! integers in little-endian order, booleans as one byte, strings and
//! vectors prefixed with their length as a little-endian `u64`.
use crate::encoding::{
    i64_le_bytes, lemma_i64_bits_roundtrip, lemma_u16_le_roundtrip, lemma_u32_le_roundtrip,
    lemma_u64_le_roundtrip, read_i64_le, read_u16_le, read_u32_le, read_u64_le, u16_le_bytes,
    u32_le_bytes, u64_le_bytes, str_from_utf8, lemma_str_chars_from_bytes, decimal, u32_decimal,
};

use vstd::bytes::*;
use vstd::prelude::*;
use vstd::string::*;
use vstd::utf8::*;

verus! {

/// Why a value could not be read.
#[derive(Debug, Clone, Copy, PartialEq, Eq, Structural)]
pub enum BinaryError {
    /// The input ended before the value did.
    UnexpectedEof,
    /// A value-type code other than 0 to 3 (invalid data).
    InvalidValueType(u8),
    /// Text bytes that are not valid UTF-8 (invalid data).
    InvalidUtf8,
}

impl BinaryError {
    /// Whether the bytes were there but did not hold a value, as opposed to
    /// ending too soon.
    pub fn is_invalid_data(&self) -> (r: bool)
        ensures
            r <==> !(self is UnexpectedEof),
    {
        !matches!(self, BinaryError::UnexpectedEof)
    }

    /// The message of the error; for an invalid value-type code it names
    /// the code in decimal.
    pub fn to_string(&self) -> (r: String)
        ensures
            r@ == match self {
                BinaryError::UnexpectedEof => "failed to fill whole buffer"@,
                BinaryError::InvalidValueType(n) => "Invalid value type id: "@ + decimal(*n as nat),
                BinaryError::InvalidUtf8 => "stream did not contain valid UTF-8"@,
            },
    {
        match self {
            BinaryError::UnexpectedEof => "failed to fill whole buffer".to_owned(),
            BinaryError::InvalidValueType(n) => {
                let mut text = "Invalid value type id: ".to_owned();
                let digits = u32_decimal(*n as u32);
                text.append(digits.as_str());
                text
            },
            BinaryError::InvalidUtf8 => "stream did not contain valid UTF-8".to_owned(),
        }
    }
}

/// A value with a binary layout. `serialize` appends the layout of a value
/// to a buffer; `deserialize` reads one value starting at a position.
pub trait BinarySerializable: Sized + DeepView {
    /// The bytes that stand for a value whose deep view is `v`.
    spec fn spec_serialize(v: <Self as DeepView>::V) -> Seq<u8>;

    /// The value read from the front of `bytes`, with the number of bytes
    /// it took, or why the bytes do not start with one.
    spec fn spec_deserialize(bytes: Seq<u8>) -> Result<(<Self as DeepView>::V, nat), BinaryError>;

    /// Every length prefix in the layout of `v` fits in its `u64`.
    spec fn spec_serializable(v: <Self as DeepView>::V) -> bool;

    fn serialize(&self, writer: &mut Vec<u8>)
        ensures
            final(writer)@ == old(writer)@ + Self::spec_serialize(self.deep_view()),
    ;

    fn deserialize(bytes: &[u8], pos: usize) -> (r: Result<(Self, usize), BinaryError>)
        requires
            pos <= bytes@.len(),
        ensures
            match Self::spec_deserialize(bytes@.subrange(pos as int, bytes@.len() as int)) {
                Ok((v, n)) => r matches Ok((x, p)) && x.deep_view() == v && p == pos + n,
                Err(e) => r == Err::<(Self, usize), BinaryError>(e),
            },
    ;

    /// Reading never takes more bytes than there are.
    proof fn lemma_deserialize_within(bytes: Seq<u8>)
        ensures
            Self::spec_deserialize(bytes) matches Ok((v, n)) ==> n <= bytes.len(),
    ;

    /// Reading a value back from its own bytes, whatever follows them,
    /// gives the value and takes exactly its bytes.
    proof fn lemma_roundtrip(v: <Self as DeepView>::V, rest: Seq<u8>)
        requires
            Self::spec_serializable(v),
        ensures
            Self::spec_deserialize(Self::spec_serialize(v) + rest) == Ok::<
                (<Self as DeepView>::V, nat),
                BinaryError,
            >((v, Self::spec_serialize(v).len())),
    ;
}

/// The bytes of `bytes` from `pos` on.
pub open spec fn rest_from(bytes: Seq<u8>, pos: int) -> Seq<u8> {
    bytes.subrange(pos, bytes.len() as int)
}

proof fn lemma_prefix_of_rest(bytes: Seq<u8>, pos: int, n: int)
    requires
        0 <= pos,
        0 <= n,
        pos + n <= bytes.len(),
    ensures
        rest_from(bytes, pos).subrange(0, n) == bytes.subrange(pos, pos + n),
{
    assert(rest_from(bytes, pos).subrange(0, n) =~= bytes.subrange(pos, pos + n));
}

impl BinarySerializable for () {
    open spec fn spec_serialize(v: ()) -> Seq<u8> {
        Seq::empty()
    }

    open spec fn spec_deserialize(bytes: Seq<u8>) -> Result<((), nat), BinaryError> {
        Ok(((), 0))
    }

    open spec fn spec_serializable(v: ()) -> bool {
        true
    }

    fn serialize(&self, writer: &mut Vec<u8>) {
        assert(writer@ =~= writer@ + Seq::<u8>::empty());
    }

    fn deserialize(bytes: &[u8], pos: usize) -> (r: Result<((), usize), BinaryError>) {
        Ok(((), pos))
    }

    proof fn lemma_deserialize_within(bytes: Seq<u8>) {
    }

    proof fn lemma_roundtrip(v: (), rest: Seq<u8>) {
    }
}

impl BinarySerializable for u8 {
    open spec fn spec_serialize(v: u8) -> Seq<u8> {
        seq![v]
    }

    open spec fn spec_deserialize(bytes: Seq<u8>) -> Result<(u8, nat), BinaryError> {
        if bytes.len() >= 1 {
            Ok((bytes[0], 1))
        } else {
            Err(BinaryError::UnexpectedEof)
        }
    }

    open spec fn spec_serializable(v: u8) -> bool {
        true
    }

    fn serialize(&self, writer: &mut Vec<u8>) {
        writer.push(*self);
    }

    fn deserialize(bytes: &[u8], pos: usize) -> (r: Result<(u8, usize), BinaryError>) {
        if pos < bytes.len() {
            Ok((bytes[pos], pos + 1))
        } else {
            Err(BinaryError::UnexpectedEof)
        }
    }

    proof fn lemma_deserialize_within(bytes: Seq<u8>) {
    }

    proof fn lemma_roundtrip(v: u8, rest: Seq<u8>) {
    }
}

impl BinarySerializable for bool {
    /// `true` is the byte 1, `false` the byte 0.
    open spec fn spec_serialize(v: bool) -> Seq<u8> {
        seq![if v { 1u8 } else { 0u8 }]
    }

    /// Any byte but 1 reads as `false`.
    open spec fn spec_deserialize(bytes: Seq<u8>) -> Result<(bool, nat), BinaryError> {
        if bytes.len() >= 1 {
            Ok((bytes[0] == 1u8, 1))
        } else {
            Err(BinaryError::UnexpectedEof)
        }
    }

    open spec fn spec_serializable(v: bool) -> bool {
        true
    }

    fn serialize(&self, writer: &mut Vec<u8>) {
        writer.push(if *self { 1u8 } else { 0u8 });
    }

    fn deserialize(bytes: &[u8], pos: usize) -> (r: Result<(bool, usize), BinaryError>) {
        if pos < bytes.len() {
            Ok((bytes[pos] == 1u8, pos + 1))
        } else {
            Err(BinaryError::UnexpectedEof)
        }
    }

    proof fn lemma_deserialize_within(bytes: Seq<u8>) {
    }

    proof fn lemma_roundtrip(v: bool, rest: Seq<u8>) {
    }
}

impl BinarySerializable for u16 {
    open spec fn spec_serialize(v: u16) -> Seq<u8> {
        spec_u16_to_le_bytes(v)
    }

    open spec fn spec_deserialize(bytes: Seq<u8>) -> Result<(u16, nat), BinaryError> {
        if bytes.len() >= 2 {
            Ok((spec_u16_from_le_bytes(bytes.subrange(0, 2)), 2))
        } else {
            Err(BinaryError::UnexpectedEof)
        }
    }

    open spec fn spec_serializable(v: u16) -> bool {
        true
    }

    fn serialize(&self, writer: &mut Vec<u8>) {
        let b = u16_le_bytes(*self);
        writer.extend_from_slice(b.as_slice());
        assert(writer@ =~= old(writer)@ + b@);
    }

    fn deserialize(bytes: &[u8], pos: usize) -> (r: Result<(u16, usize), BinaryError>) {
        if bytes.len() - pos < 2 {
            return Err(BinaryError::UnexpectedEof);
        }
        proof {
            lemma_prefix_of_rest(bytes@, pos as int, 2);
        }
        let v = read_u16_le(&bytes[pos..pos + 2]);
        Ok((v, pos + 2))
    }

    proof fn lemma_deserialize_within(bytes: Seq<u8>) {
    }

    proof fn lemma_roundtrip(v: u16, rest: Seq<u8>) {
        lemma_u16_le_roundtrip(v);
        let s = Self::spec_serialize(v);
        assert((s + rest).subrange(0, 2) =~= s);
    }
}

impl BinarySerializable for u32 {
    open spec fn spec_serialize(v: u32) -> Seq<u8> {
        spec_u32_to_le_bytes(v)
    }

    open spec fn spec_deserialize(bytes: Seq<u8>) -> Result<(u32, nat), BinaryError> {
        if bytes.len() >= 4 {
            Ok((spec_u32_from_le_bytes(bytes.subrange(0, 4)), 4))
        } else {
            Err(BinaryError::UnexpectedEof)
        }
    }

    open spec fn spec_serializable(v: u32) -> bool {
        true
    }

    fn serialize(&self, writer: &mut Vec<u8>) {
        let b = u32_le_bytes(*self);
        writer.extend_from_slice(b.as_slice());
        assert(writer@ =~= old(writer)@ + b@);
    }

    fn deserialize(bytes: &[u8], pos: usize) -> (r: Result<(u32, usize), BinaryError>) {
        if bytes.len() - pos < 4 {
            return Err(BinaryError::UnexpectedEof);
        }
        proof {
            lemma_prefix_of_rest(bytes@, pos as int, 4);
        }
        let v = read_u32_le(&bytes[pos..pos + 4]);
        Ok((v, pos + 4))
    }

    proof fn lemma_deserialize_within(bytes: Seq<u8>) {
    }

    proof fn lemma_roundtrip(v: u32, rest: Seq<u8>) {
        lemma_u32_le_roundtrip(v);
        let s = Self::spec_serialize(v);
        assert((s + rest).subrange(0, 4) =~= s);
    }
}

impl BinarySerializable for u64 {
    open spec fn spec_serialize(v: u64) -> Seq<u8> {
        spec_u64_to_le_bytes(v)
    }

    open spec fn spec_deserialize(bytes: Seq<u8>) -> Result<(u64, nat), BinaryError> {
        if bytes.len() >= 8 {
            Ok((spec_u64_from_le_bytes(bytes.subrange(0, 8)), 8))
        } else {
            Err(BinaryError::UnexpectedEof)
        }
    }

    open spec fn spec_serializable(v: u64) -> bool {
        true
    }

    fn serialize(&self, writer: &mut Vec<u8>) {
        let b = u64_le_bytes(*self);
        writer.extend_from_slice(b.as_slice());
        assert(writer@ =~= old(writer)@ + b@);
    }

    fn deserialize(bytes: &[u8], pos: usize) -> (r: Result<(u64, usize), BinaryError>) {
        if bytes.len() - pos < 8 {
            return Err(BinaryError::UnexpectedEof);
        }
        proof {
            lemma_prefix_of_rest(bytes@, pos as int, 8);
        }
        let v = read_u64_le(&bytes[pos..pos + 8]);
        Ok((v, pos + 8))
    }

    proof fn lemma_deserialize_within(bytes: Seq<u8>) {
    }

    proof fn lemma_roundtrip(v: u64, rest: Seq<u8>) {
        lemma_u64_le_roundtrip(v);
        let s = Self::spec_serialize(v);
        assert((s + rest).subrange(0, 8) =~= s);
    }
}

impl BinarySerializable for i64 {
    /// The little-endian bytes of the two's complement bits.
    open spec fn spec_serialize(v: i64) -> Seq<u8> {
        spec_u64_to_le_bytes(v as u64)
    }

    open spec fn spec_deserialize(bytes: Seq<u8>) -> Result<(i64, nat), BinaryError> {
        if bytes.len() >= 8 {
            Ok((spec_u64_from_le_bytes(bytes.subrange(0, 8)) as i64, 8))
        } else {
            Err(BinaryError::UnexpectedEof)
        }
    }

    open spec fn spec_serializable(v: i64) -> bool {
        true
    }

    fn serialize(&self, writer: &mut Vec<u8>) {
        let b = i64_le_bytes(*self);
        writer.extend_from_slice(b.as_slice());
        assert(writer@ =~= old(writer)@ + b@);
    }

    fn deserialize(bytes: &[u8], pos: usize) -> (r: Result<(i64, usize), BinaryError>) {
        if bytes.len() - pos < 8 {
            return Err(BinaryError::UnexpectedEof);
        }
        proof {
            lemma_prefix_of_rest(bytes@, pos as int, 8);
        }
        let v = read_i64_le(&bytes[pos..pos + 8]);
        Ok((v, pos + 8))
    }

    proof fn lemma_deserialize_within(bytes: Seq<u8>) {
    }

    proof fn lemma_roundtrip(v: i64, rest: Seq<u8>) {
        lemma_u64_le_roundtrip(v as u64);
        lemma_i64_bits_roundtrip(v);
        let s = Self::spec_serialize(v);
        assert((s + rest).subrange(0, 8) =~= s);
    }
}

/// The number of bytes a length-prefixed string takes after its prefix:
/// the announced length, or what is left where fewer bytes remain.
pub open spec fn string_body_len(bytes: Seq<u8>) -> nat
    recommends
        bytes.len() >= 8,
{
    let announced = spec_u64_from_le_bytes(bytes.subrange(0, 8));
    if announced <= bytes.len() - 8 {
        announced as nat
    } else {
        (bytes.len() - 8) as nat
    }
}

impl BinarySerializable for String {
    /// The length of the UTF-8 bytes as a little-endian `u64`, then the bytes.
    open spec fn spec_serialize(v: Seq<char>) -> Seq<u8> {
        spec_u64_to_le_bytes(encode_utf8(v).len() as u64) + encode_utf8(v)
    }

    /// Reads at most the announced number of bytes (fewer where the input
    /// ends first) and requires them to be valid UTF-8.
    open spec fn spec_deserialize(bytes: Seq<u8>) -> Result<(Seq<char>, nat), BinaryError> {
        if bytes.len() < 8 {
            Err(BinaryError::UnexpectedEof)
        } else {
            let body = bytes.subrange(8, 8 + string_body_len(bytes) as int);
            if valid_utf8(body) {
                Ok((decode_utf8(body), 8 + string_body_len(bytes)))
            } else {
                Err(BinaryError::InvalidUtf8)
            }
        }
    }

    /// The UTF-8 length fits in the `u64` prefix.
    open spec fn spec_serializable(v: Seq<char>) -> bool {
        encode_utf8(v).len() <= u64::MAX
    }

    fn serialize(&self, writer: &mut Vec<u8>) {
        let data = self.as_str().as_bytes();
        let len = data.len() as u64;
        len.serialize(writer);
        writer.extend_from_slice(data);
        assert(writer@ =~= old(writer)@ + Self::spec_serialize(self.deep_view()));
    }

    fn deserialize(bytes: &[u8], pos: usize) -> (r: Result<(String, usize), BinaryError>) {
        let ghost rest = rest_from(bytes@, pos as int);
        let (len, p) = match u64::deserialize(bytes, pos) {
            Ok(x) => x,
            Err(e) => return Err(e),
        };
        let remaining = bytes.len() - p;
        let avail: usize = if len <= remaining as u64 {
            len as usize
        } else {
            remaining
        };
        assert(avail == string_body_len(rest));
        let data = &bytes[p..p + avail];
        assert(data@ == rest.subrange(8, 8 + string_body_len(rest) as int));
        match str_from_utf8(data) {
            Some(s) => {
                proof {
                    lemma_str_chars_from_bytes(s);
                }
                Ok((s.to_owned(), p + avail))
            },
            None => Err(BinaryError::InvalidUtf8),
        }
    }

    proof fn lemma_deserialize_within(bytes: Seq<u8>) {
    }

    proof fn lemma_roundtrip(v: Seq<char>, rest: Seq<u8>) {
        let e = encode_utf8(v);
        let s = Self::spec_serialize(v);
        let b = s + rest;
        lemma_u64_le_roundtrip(e.len() as u64);
        assert(b.subrange(0, 8) =~= spec_u64_to_le_bytes(e.len() as u64));
        assert(string_body_len(b) == e.len());
        assert(b.subrange(8, 8 + e.len() as int) =~= e);
        encode_utf8_valid_utf8(v);
        encode_utf8_decode_utf8(v);
    }
}

/// The layouts of the items one after another.
pub open spec fn serialize_items<T: BinarySerializable>(items: Seq<<T as DeepView>::V>) -> Seq<u8>
    decreases items.len(),
{
    if items.len() == 0 {
        Seq::empty()
    } else {
        serialize_items::<T>(items.drop_last()) + T::spec_serialize(items.last())
    }
}

/// Reading `n` items one after another from the front of `bytes`: the
/// items and the bytes they took, or why one of them cannot be read.
pub open spec fn deserialize_items<T: BinarySerializable>(bytes: Seq<u8>, n: nat) -> Result<
    (Seq<<T as DeepView>::V>, nat),
    BinaryError,
>
    decreases n,
{
    if n == 0 {
        Ok((Seq::empty(), 0))
    } else {
        match T::spec_deserialize(bytes) {
            Ok((x, k)) => match deserialize_items::<T>(
                bytes.subrange(k as int, bytes.len() as int),
                (n - 1) as nat,
            ) {
                Ok((xs, m)) => Ok((seq![x] + xs, k + m)),
                Err(e) => Err(e),
            },
            Err(e) => Err(e),
        }
    }
}

/// Items already read, followed by what reading the rest gives.
pub open spec fn after_items<V>(
    done: Seq<V>,
    used: nat,
    rest: Result<(Seq<V>, nat), BinaryError>,
) -> Result<(Seq<V>, nat), BinaryError> {
    match rest {
        Ok((xs, m)) => Ok((done + xs, used + m)),
        Err(e) => Err(e),
    }
}

proof fn lemma_deserialize_items_within<T: BinarySerializable>(bytes: Seq<u8>, n: nat)
    ensures
        deserialize_items::<T>(bytes, n) matches Ok((xs, m)) ==> m <= bytes.len() && xs.len()
            == n,
    decreases n,
{
    if n > 0 {
        T::lemma_deserialize_within(bytes);
        match T::spec_deserialize(bytes) {
            Ok((x, k)) => {
                lemma_deserialize_items_within::<T>(
                    bytes.subrange(k as int, bytes.len() as int),
                    (n - 1) as nat,
                );
            },
            Err(_) => {},
        }
    }
}

proof fn lemma_serialize_items_front<T: BinarySerializable>(items: Seq<<T as DeepView>::V>)
    requires
        items.len() > 0,
    ensures
        serialize_items::<T>(items) == T::spec_serialize(items[0]) + serialize_items::<T>(
            items.drop_first(),
        ),
    decreases items.len(),
{
    if items.len() > 1 {
        lemma_serialize_items_front::<T>(items.drop_last());
        assert(items.drop_last().drop_first() =~= items.drop_first().drop_last());
        assert(items.drop_first().last() == items.last());
        assert(items.drop_last()[0] == items[0]);
    } else {
        assert(items.drop_last() =~= Seq::<<T as DeepView>::V>::empty());
        assert(items.drop_first() =~= Seq::<<T as DeepView>::V>::empty());
    }
}

proof fn lemma_items_roundtrip<T: BinarySerializable>(
    items: Seq<<T as DeepView>::V>,
    rest: Seq<u8>,
)
    requires
        forall|i: int| 0 <= i < items.len() ==> T::spec_serializable(#[trigger] items[i]),
    ensures
        deserialize_items::<T>(serialize_items::<T>(items) + rest, items.len()) == Ok::<
            (Seq<<T as DeepView>::V>, nat),
            BinaryError,
        >((items, serialize_items::<T>(items).len())),
    decreases items.len(),
{
    if items.len() == 0 {
        assert(items =~= Seq::<<T as DeepView>::V>::empty());
    } else {
        let tail = items.drop_first();
        assert forall|i: int| 0 <= i < tail.len() implies T::spec_serializable(
            #[trigger] tail[i],
        ) by {
            assert(tail[i] == items[i + 1]);
        }
        lemma_serialize_items_front::<T>(items);
        lemma_items_roundtrip::<T>(tail, rest);
        let head = T::spec_serialize(items[0]);
        let b = serialize_items::<T>(items) + rest;
        assert(T::spec_serializable(items[0]));
        T::lemma_roundtrip(items[0], serialize_items::<T>(tail) + rest);
        assert(b =~= head + (serialize_items::<T>(tail) + rest));
        assert(b.subrange(head.len() as int, b.len() as int) =~= serialize_items::<T>(tail) + rest);
        assert(seq![items[0]] + tail =~= items);
        assert(serialize_items::<T>(items).len() == head.len() + serialize_items::<T>(tail).len());
        assert(T::spec_deserialize(b) == Ok::<(<T as DeepView>::V, nat), BinaryError>(
            (items[0], head.len()),
        ));
        assert(deserialize_items::<T>(b, items.len()) == Ok::<
            (Seq<<T as DeepView>::V>, nat),
            BinaryError,
        >((seq![items[0]] + tail, head.len() + serialize_items::<T>(tail).len())));
    }
}

impl<T: BinarySerializable> BinarySerializable for Vec<T> {
    /// The number of items as a little-endian `u64`, then the items.
    open spec fn spec_serialize(v: Seq<<T as DeepView>::V>) -> Seq<u8> {
        spec_u64_to_le_bytes(v.len() as u64) + serialize_items::<T>(v)
    }

    open spec fn spec_deserialize(bytes: Seq<u8>) -> Result<(Seq<<T as DeepView>::V>, nat), BinaryError> {
        if bytes.len() < 8 {
            Err(BinaryError::UnexpectedEof)
        } else {
            match deserialize_items::<T>(
                bytes.subrange(8, bytes.len() as int),
                spec_u64_from_le_bytes(bytes.subrange(0, 8)) as nat,
            ) {
                Ok((xs, m)) => Ok((xs, 8 + m)),
                Err(e) => Err(e),
            }
        }
    }

    /// The count fits in the `u64` prefix and every item can be written.
    open spec fn spec_serializable(v: Seq<<T as DeepView>::V>) -> bool {
        &&& v.len() <= u64::MAX
        &&& forall|i: int| 0 <= i < v.len() ==> T::spec_serializable(#[trigger] v[i])
    }

    fn serialize(&self, writer: &mut Vec<u8>) {
        let ghost items = self.deep_view();
        (self.len() as u64).serialize(writer);
        let mut i: usize = 0;
        while i < self.len()
            invariant
                i <= self@.len(),
                items == self.deep_view(),
                items.len() == self@.len(),
                writer@ == old(writer)@ + spec_u64_to_le_bytes(self@.len() as u64)
                    + serialize_items::<T>(items.subrange(0, i as int)),
            decreases self@.len() - i,
        {
            self[i].serialize(writer);
            proof {
                assert(items.subrange(0, i + 1).drop_last() =~= items.subrange(0, i as int));
                assert(items[i as int] == self@[i as int].deep_view());
            }
            i = i + 1;
        }
        assert(items.subrange(0, self@.len() as int) =~= items);
    }

    fn deserialize(bytes: &[u8], pos: usize) -> (r: Result<(Vec<T>, usize), BinaryError>) {
        let ghost whole = rest_from(bytes@, pos as int);
        let (num_items, start) = match u64::deserialize(bytes, pos) {
            Ok(x) => x,
            Err(e) => return Err(e),
        };
        let ghost body = rest_from(bytes@, start as int);
        assert(whole.subrange(8, whole.len() as int) =~= body);
        assert(num_items == spec_u64_from_le_bytes(whole.subrange(0, 8)));
        let mut items: Vec<T> = Vec::new();
        let mut p = start;
        let mut i: u64 = 0;
        while i < num_items
            invariant
                start <= p <= bytes@.len(),
                i <= num_items,
                body == rest_from(bytes@, start as int),
                whole == rest_from(bytes@, pos as int),
                whole.len() >= 8,
                whole.subrange(8, whole.len() as int) == body,
                num_items == spec_u64_from_le_bytes(whole.subrange(0, 8)),
                deserialize_items::<T>(body, num_items as nat) == after_items(
                    items.deep_view(),
                    (p - start) as nat,
                    deserialize_items::<T>(rest_from(bytes@, p as int), (num_items - i) as nat),
                ),
            decreases num_items - i,
        {
            let ghost here = rest_from(bytes@, p as int);
            let ghost before = items.deep_view();
            proof {
                T::lemma_deserialize_within(here);
            }
            let (item, next) = match T::deserialize(bytes, p) {
                Ok(x) => x,
                Err(e) => {
                    proof {
                        assert(deserialize_items::<T>(here, (num_items - i) as nat) == Err::<(Seq<<T as DeepView>::V>, nat), BinaryError>(e));
                        assert(deserialize_items::<T>(body, num_items as nat) == Err::<(Seq<<T as DeepView>::V>, nat), BinaryError>(e));
                    }
                    return Err(e);
                },
            };
            proof {
                let k = (next - p) as nat;
                assert(here.subrange(k as int, here.len() as int) =~= rest_from(bytes@, next as int));
            }
            items.push(item);
            proof {
                assert(items.deep_view() =~= before.push(item.deep_view()));
                match deserialize_items::<T>(rest_from(bytes@, next as int), (num_items - i - 1) as nat) {
                    Ok((xs, m)) => {
                        assert(before + (seq![item.deep_view()] + xs) =~= before.push(item.deep_view()) + xs);
                    },
                    Err(_) => {},
                }
            }
            p = next;
            i = i + 1;
        }
        assert(items.deep_view() + Seq::<<T as DeepView>::V>::empty() =~= items.deep_view());
        Ok((items, p))
    }

    proof fn lemma_deserialize_within(bytes: Seq<u8>) {
        if bytes.len() >= 8 {
            lemma_deserialize_items_within::<T>(
                bytes.subrange(8, bytes.len() as int),
                spec_u64_from_le_bytes(bytes.subrange(0, 8)) as nat,
            );
        }
    }

    proof fn lemma_roundtrip(v: Seq<<T as DeepView>::V>, rest: Seq<u8>) {
        let b = Self::spec_serialize(v) + rest;
        lemma_u64_le_roundtrip(v.len() as u64);
        assert(b.subrange(0, 8) =~= spec_u64_to_le_bytes(v.len() as u64));
        assert(b.subrange(8, b.len() as int) =~= serialize_items::<T>(v) + rest);
        lemma_items_roundtrip::<T>(v, rest);
    }
}

} // verus!
