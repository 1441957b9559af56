//! Reading and writing the field values of a search-engine document, as
//! callers that hold a document by handle do: a value is written at the
//! end of its field, and a field's values are read back in writing order.
use crate::object::{BurkazValue, BurkazValueModel};
use tantivy::schema::document::ReferenceValueLeaf;
use tantivy::schema::{Field, Value};
use tantivy::TantivyDocument;
use vstd::prelude::*;
use vstd::string::*;
use vstd::utf8::*;

verus! {

#[verifier::external_type_specification]
#[verifier::external_body]
pub struct ExTantivyDocument(tantivy::TantivyDocument);

/// The (field id, value) pairs a document holds, in the order they were added.
pub uninterp spec fn document_entries(doc: TantivyDocument) -> Seq<(u32, BurkazValueModel)>;

/// The values of field `field_id` among `entries`, in order.
pub open spec fn field_entries(entries: Seq<(u32, BurkazValueModel)>, field_id: u32) -> Seq<
    BurkazValueModel,
>
    decreases entries.len(),
{
    if entries.len() == 0 {
        Seq::empty()
    } else {
        let before = field_entries(entries.drop_last(), field_id);
        if entries.last().0 == field_id {
            before.push(entries.last().1)
        } else {
            before
        }
    }
}

/// The number of bytes of stored data (numbers and texts) a document holds.
/// The document records where each value starts in this data as a `u32`,
/// and the byte length of each text as a `u32`.
pub uninterp spec fn document_data_len(doc: TantivyDocument) -> nat;

/// Whether every value the document holds was stored where its positions
/// reach and with its length whole: the document keeps where each value
/// starts in its stored data as a `u32`, and each text's byte length as a
/// `u32`, so this holds while every value started within the first
/// `u32::MAX` bytes of data and every text held at most `u32::MAX` bytes.
pub uninterp spec fn document_positions_fit(doc: TantivyDocument) -> bool;

/// The number of bytes in which the document writes a text's length: a
/// variable-length integer of seven bits per byte.
pub open spec fn vint_len(v: u32) -> nat {
    if v < 0x80 {
        1
    } else if v < 0x4000 {
        2
    } else if v < 0x20_0000 {
        3
    } else if v < 0x1000_0000 {
        4
    } else {
        5
    }
}

/// `after` is `before` with one more pair at the end for field `field_id`;
/// where `exact`, that pair holds `value`.
pub open spec fn appended(
    before: Seq<(u32, BurkazValueModel)>,
    after: Seq<(u32, BurkazValueModel)>,
    field_id: u32,
    value: BurkazValueModel,
    exact: bool,
) -> bool {
    &&& after.len() == before.len() + 1
    &&& after.drop_last() == before
    &&& after.last().0 == field_id
    &&& exact ==> after.last().1 == value
}

/// `TantivyDocument::new`: a document with no values and no stored data.
#[verifier::external_body]
fn document_new() -> (r: TantivyDocument)
    ensures
        document_entries(r) == Seq::<(u32, BurkazValueModel)>::empty(),
        document_data_len(r) == 0,
        document_positions_fit(r),
{
    TantivyDocument::new()
}

/// `TantivyDocument::add_i64`: appends a pair for the field and stores the
/// integer's eight bytes. The pair reads back as the integer where the data
/// held at most `u32::MAX` bytes before, since the position is kept as a
/// `u32`; past that it is read from a wrapped position, and what it reads
/// as is left unsaid. The document keeps field ids as `u16` and panics on
/// larger ones.
#[verifier::external_body]
fn document_add_i64(doc: &mut TantivyDocument, field_id: u32, value: i64)
    requires
        field_id <= u16::MAX,
    ensures
        appended(
            document_entries(*old(doc)),
            document_entries(*final(doc)),
            field_id,
            BurkazValueModel::I64(value),
            document_data_len(*old(doc)) <= u32::MAX,
        ),
        document_data_len(*final(doc)) == document_data_len(*old(doc)) + 8,
        document_positions_fit(*final(doc)) == (document_positions_fit(*old(doc))
            && document_data_len(*old(doc)) <= u32::MAX),
{
    doc.add_i64(Field::from_field_id(field_id), value)
}

/// `TantivyDocument::add_bool`: appends the pair (field, boolean). The
/// boolean is kept in the pair itself, not in the stored data. The document
/// keeps field ids as `u16` and panics on larger ones.
#[verifier::external_body]
fn document_add_bool(doc: &mut TantivyDocument, field_id: u32, value: bool)
    requires
        field_id <= u16::MAX,
    ensures
        appended(
            document_entries(*old(doc)),
            document_entries(*final(doc)),
            field_id,
            BurkazValueModel::Bool(value),
            true,
        ),
        document_data_len(*final(doc)) == document_data_len(*old(doc)),
        document_positions_fit(*final(doc)) == document_positions_fit(*old(doc)),
{
    doc.add_bool(Field::from_field_id(field_id), value)
}

/// `TantivyDocument::add_text`: appends a pair for the field and stores the
/// text's byte length (as a `u32`, in a variable-length integer) and its
/// UTF-8 bytes. The pair reads back as the text where the data held at most
/// `u32::MAX` bytes before and the text's UTF-8 length is at most
/// `u32::MAX`; otherwise what it reads as is left unsaid. The document keeps
/// field ids as `u16` and panics on larger ones.
#[verifier::external_body]
fn document_add_text(doc: &mut TantivyDocument, field_id: u32, value: &str)
    requires
        field_id <= u16::MAX,
    ensures
        appended(
            document_entries(*old(doc)),
            document_entries(*final(doc)),
            field_id,
            BurkazValueModel::Str(value@),
            document_data_len(*old(doc)) <= u32::MAX && value.spec_bytes().len() <= u32::MAX,
        ),
        document_data_len(*final(doc)) == document_data_len(*old(doc)) + vint_len(
            value.spec_bytes().len() as u32,
        ) + value.spec_bytes().len(),
        document_positions_fit(*final(doc)) == (document_positions_fit(*old(doc))
            && document_data_len(*old(doc)) <= u32::MAX && value.spec_bytes().len() <= u32::MAX),
{
    doc.add_text(Field::from_field_id(field_id), value)
}

/// `TantivyDocument::get_all`: the values of one field, in the order they
/// were added, each taken as a [`BurkazValue`] (kinds other than null,
/// integer, boolean and text as `Unsupported`). A text stored where the
/// document's positions or lengths do not reach would be read from bytes
/// not written for it, unchecked, and the read may panic; such documents
/// are left out.
#[verifier::external_body]
fn document_get_all(doc: &TantivyDocument, field_id: u32) -> (r: Vec<BurkazValue>)
    requires
        document_positions_fit(*doc),
    ensures
        r@.len() == field_entries(document_entries(*doc), field_id).len(),
        forall|i: int|
            0 <= i < r@.len() ==> #[trigger] r@[i]@ == field_entries(
                document_entries(*doc),
                field_id,
            )[i],
{
    doc.get_all(Field::from_field_id(field_id))
        .map(|value| match value.as_leaf() {
            Some(ReferenceValueLeaf::Null) => BurkazValue::Null,
            Some(ReferenceValueLeaf::I64(v)) => BurkazValue::I64(v),
            Some(ReferenceValueLeaf::Bool(b)) => BurkazValue::Bool(b),
            Some(ReferenceValueLeaf::Str(s)) => BurkazValue::Str(s.to_string()),
            _ => BurkazValue::Unsupported,
        })
        .collect()
}

/// The integer a field reads as: its first value, where that is an integer.
pub open spec fn first_int(values: Seq<BurkazValueModel>) -> Option<i64> {
    if values.len() > 0 {
        match values[0] {
            BurkazValueModel::I64(v) => Some(v),
            _ => None,
        }
    } else {
        None
    }
}

/// The boolean a field reads as: its first value, where that is a boolean.
pub open spec fn first_bool(values: Seq<BurkazValueModel>) -> Option<bool> {
    if values.len() > 0 {
        match values[0] {
            BurkazValueModel::Bool(b) => Some(b),
            _ => None,
        }
    } else {
        None
    }
}

/// A text that can be handed over as a NUL-terminated string: its UTF-8
/// bytes hold no zero byte.
pub open spec fn nul_free(text: Seq<char>) -> bool {
    !encode_utf8(text).contains(0u8)
}

/// The text a field reads as: its first value, where that is a text that
/// can be handed over as a NUL-terminated string.
pub open spec fn first_text(values: Seq<BurkazValueModel>) -> Option<Seq<char>> {
    if values.len() > 0 {
        match values[0] {
            BurkazValueModel::Str(s) => if nul_free(s) {
                Some(s)
            } else {
                None
            },
            _ => None,
        }
    } else {
        None
    }
}

/// The integers among `values`, in order.
pub open spec fn int_values(values: Seq<BurkazValueModel>) -> Seq<i64>
    decreases values.len(),
{
    if values.len() == 0 {
        Seq::empty()
    } else {
        match values.last() {
            BurkazValueModel::I64(v) => int_values(values.drop_last()).push(v),
            _ => int_values(values.drop_last()),
        }
    }
}

/// The booleans among `values`, in order.
pub open spec fn bool_values(values: Seq<BurkazValueModel>) -> Seq<bool>
    decreases values.len(),
{
    if values.len() == 0 {
        Seq::empty()
    } else {
        match values.last() {
            BurkazValueModel::Bool(b) => bool_values(values.drop_last()).push(b),
            _ => bool_values(values.drop_last()),
        }
    }
}

/// The texts among `values` that can be handed over as NUL-terminated
/// strings, in order.
pub open spec fn text_values(values: Seq<BurkazValueModel>) -> Seq<Seq<char>>
    decreases values.len(),
{
    if values.len() == 0 {
        Seq::empty()
    } else {
        match values.last() {
            BurkazValueModel::Str(s) => if nul_free(s) {
                text_values(values.drop_last()).push(s)
            } else {
                text_values(values.drop_last())
            },
            _ => text_values(values.drop_last()),
        }
    }
}

/// The values of field `field_id` in `doc`.
pub open spec fn document_field(doc: TantivyDocument, field_id: u32) -> Seq<BurkazValueModel> {
    field_entries(document_entries(doc), field_id)
}

/// Whether a text holds a zero byte, and so cannot be handed over as a
/// NUL-terminated string.
fn has_nul(text: &str) -> (r: bool)
    ensures
        r == !nul_free(text@),
{
    let bytes = text.as_bytes();
    let mut i: usize = 0;
    while i < bytes.len()
        invariant
            i <= bytes@.len(),
            bytes@ == encode_utf8(text@),
            forall|k: int| 0 <= k < i ==> bytes@[k] != 0u8,
        decreases bytes@.len() - i,
    {
        if bytes[i] == 0u8 {
            assert(bytes@[i as int] == 0u8);
            assert(encode_utf8(text@).contains(0u8));
            return true;
        }
        i = i + 1;
    }
    assert(!encode_utf8(text@).contains(0u8)) by {
        if encode_utf8(text@).contains(0u8) {
            let k = choose|k: int| 0 <= k < bytes@.len() && bytes@[k] == 0u8;
            assert(bytes@[k] != 0u8);
        }
    }
    false
}

/// A new document with no values and no stored data.
pub fn object_create() -> (r: TantivyDocument)
    ensures
        document_entries(r) == Seq::<(u32, BurkazValueModel)>::empty(),
        document_data_len(r) == 0,
        document_positions_fit(r),
{
    document_new()
}

/// The integer field `field_id` reads as: its first value, where that is an integer.
pub fn object_read_int(doc: &TantivyDocument, field_id: u32) -> (r: Option<i64>)
    requires
        document_positions_fit(*doc),
    ensures
        r == first_int(document_field(*doc, field_id)),
{
    let values = document_get_all(doc, field_id);
    if values.len() == 0 {
        return None;
    }
    assert(values@[0]@ == document_field(*doc, field_id)[0]);
    match &values[0] {
        BurkazValue::I64(v) => Some(*v),
        _ => None,
    }
}

/// The boolean field `field_id` reads as: its first value, where that is a boolean.
pub fn object_read_boolean(doc: &TantivyDocument, field_id: u32) -> (r: Option<bool>)
    requires
        document_positions_fit(*doc),
    ensures
        r == first_bool(document_field(*doc, field_id)),
{
    let values = document_get_all(doc, field_id);
    if values.len() == 0 {
        return None;
    }
    assert(values@[0]@ == document_field(*doc, field_id)[0]);
    match &values[0] {
        BurkazValue::Bool(b) => Some(*b),
        _ => None,
    }
}

/// The text field `field_id` reads as: its first value, where that is a
/// text with no zero byte.
pub fn object_read_text(doc: &TantivyDocument, field_id: u32) -> (r: Option<String>)
    requires
        document_positions_fit(*doc),
    ensures
        r is Some <==> first_text(document_field(*doc, field_id)) is Some,
        r matches Some(s) ==> s@ == first_text(document_field(*doc, field_id)).unwrap(),
{
    let values = document_get_all(doc, field_id);
    if values.len() == 0 {
        return None;
    }
    assert(values@[0]@ == document_field(*doc, field_id)[0]);
    match &values[0] {
        BurkazValue::Str(s) => {
            if has_nul(s.as_str()) {
                None
            } else {
                Some(s.clone())
            }
        },
        _ => None,
    }
}

/// The integers among the values of field `field_id`, in order.
pub fn object_read_int_list(doc: &TantivyDocument, field_id: u32) -> (r: Vec<i64>)
    requires
        document_positions_fit(*doc),
    ensures
        r@ == int_values(document_field(*doc, field_id)),
{
    let values = document_get_all(doc, field_id);
    let ghost vs = document_field(*doc, field_id);
    let mut out: Vec<i64> = Vec::new();
    let mut i: usize = 0;
    while i < values.len()
        invariant
            i <= values@.len(),
            values@.len() == vs.len(),
            forall|k: int| 0 <= k < values@.len() ==> #[trigger] values@[k]@ == vs[k],
            out@ == int_values(vs.subrange(0, i as int)),
        decreases values@.len() - i,
    {
        proof {
            assert(vs.subrange(0, i + 1).drop_last() =~= vs.subrange(0, i as int));
            assert(values@[i as int]@ == vs[i as int]);
        }
        match &values[i] {
            BurkazValue::I64(v) => out.push(*v),
            _ => {},
        }
        i = i + 1;
    }
    assert(vs.subrange(0, vs.len() as int) =~= vs);
    out
}

/// The booleans among the values of field `field_id`, in order.
pub fn object_read_boolean_list(doc: &TantivyDocument, field_id: u32) -> (r: Vec<bool>)
    requires
        document_positions_fit(*doc),
    ensures
        r@ == bool_values(document_field(*doc, field_id)),
{
    let values = document_get_all(doc, field_id);
    let ghost vs = document_field(*doc, field_id);
    let mut out: Vec<bool> = Vec::new();
    let mut i: usize = 0;
    while i < values.len()
        invariant
            i <= values@.len(),
            values@.len() == vs.len(),
            forall|k: int| 0 <= k < values@.len() ==> #[trigger] values@[k]@ == vs[k],
            out@ == bool_values(vs.subrange(0, i as int)),
        decreases values@.len() - i,
    {
        proof {
            assert(vs.subrange(0, i + 1).drop_last() =~= vs.subrange(0, i as int));
            assert(values@[i as int]@ == vs[i as int]);
        }
        match &values[i] {
            BurkazValue::Bool(b) => out.push(*b),
            _ => {},
        }
        i = i + 1;
    }
    assert(vs.subrange(0, vs.len() as int) =~= vs);
    out
}

/// The texts with no zero byte among the values of field `field_id`, in order.
pub fn object_read_text_list(doc: &TantivyDocument, field_id: u32) -> (r: Vec<String>)
    requires
        document_positions_fit(*doc),
    ensures
        r@.len() == text_values(document_field(*doc, field_id)).len(),
        forall|k: int|
            0 <= k < r@.len() ==> #[trigger] r@[k]@ == text_values(document_field(*doc, field_id))[k],
{
    let values = document_get_all(doc, field_id);
    let ghost vs = document_field(*doc, field_id);
    let mut out: Vec<String> = Vec::new();
    let mut i: usize = 0;
    while i < values.len()
        invariant
            i <= values@.len(),
            values@.len() == vs.len(),
            forall|k: int| 0 <= k < values@.len() ==> #[trigger] values@[k]@ == vs[k],
            out@.len() == text_values(vs.subrange(0, i as int)).len(),
            forall|k: int|
                0 <= k < out@.len() ==> #[trigger] out@[k]@ == text_values(vs.subrange(0, i as int))[k],
        decreases values@.len() - i,
    {
        proof {
            assert(vs.subrange(0, i + 1).drop_last() =~= vs.subrange(0, i as int));
            assert(values@[i as int]@ == vs[i as int]);
        }
        match &values[i] {
            BurkazValue::Str(s) => {
                if !has_nul(s.as_str()) {
                    out.push(s.clone());
                }
            },
            _ => {},
        }
        i = i + 1;
    }
    assert(vs.subrange(0, vs.len() as int) =~= vs);
    out
}

/// `after` is `before` with `n` more pairs at the end, all for field `field_id`.
pub open spec fn extended_for_field(
    before: Seq<(u32, BurkazValueModel)>,
    after: Seq<(u32, BurkazValueModel)>,
    field_id: u32,
    n: nat,
) -> bool {
    &&& after.len() == before.len() + n
    &&& after.subrange(0, before.len() as int) == before
    &&& forall|k: int| before.len() <= k < after.len() ==> (#[trigger] after[k]).0 == field_id
}

proof fn lemma_extended_step(
    before: Seq<(u32, BurkazValueModel)>,
    mid: Seq<(u32, BurkazValueModel)>,
    after: Seq<(u32, BurkazValueModel)>,
    field_id: u32,
    n: nat,
    value: BurkazValueModel,
    exact: bool,
)
    requires
        extended_for_field(before, mid, field_id, n),
        appended(mid, after, field_id, value, exact),
    ensures
        extended_for_field(before, after, field_id, n + 1),
{
    assert(after.subrange(0, before.len() as int) =~= mid.subrange(0, before.len() as int)) by {
        assert forall|k: int| 0 <= k < before.len() implies after[k] == mid[k] by {
            assert(after.drop_last()[k] == after[k]);
        }
    }
    assert forall|k: int| before.len() <= k < after.len() implies (#[trigger] after[k]).0
        == field_id by {
        if k < mid.len() {
            assert(after.drop_last()[k] == after[k]);
        }
    }
}

/// Writes an integer as the last value of field `field_id`; it reads back
/// as written where the document held at most `u32::MAX` bytes of data.
pub fn object_write_int(doc: &mut TantivyDocument, field_id: u32, value: i64)
    requires
        field_id <= u16::MAX,
    ensures
        appended(
            document_entries(*old(doc)),
            document_entries(*final(doc)),
            field_id,
            BurkazValueModel::I64(value),
            document_data_len(*old(doc)) <= u32::MAX,
        ),
        document_data_len(*final(doc)) == document_data_len(*old(doc)) + 8,
        document_positions_fit(*final(doc)) == (document_positions_fit(*old(doc))
            && document_data_len(*old(doc)) <= u32::MAX),
{
    document_add_i64(doc, field_id, value);
}

/// Writes a boolean as the last value of field `field_id`.
pub fn object_write_boolean(doc: &mut TantivyDocument, field_id: u32, value: bool)
    requires
        field_id <= u16::MAX,
    ensures
        appended(
            document_entries(*old(doc)),
            document_entries(*final(doc)),
            field_id,
            BurkazValueModel::Bool(value),
            true,
        ),
        document_data_len(*final(doc)) == document_data_len(*old(doc)),
        document_positions_fit(*final(doc)) == document_positions_fit(*old(doc)),
{
    document_add_bool(doc, field_id, value);
}

/// Writes a text as the last value of field `field_id`; it reads back as
/// written where the document held at most `u32::MAX` bytes of data and the
/// text has at most `u32::MAX` UTF-8 bytes.
pub fn object_write_text(doc: &mut TantivyDocument, field_id: u32, value: &str)
    requires
        field_id <= u16::MAX,
    ensures
        appended(
            document_entries(*old(doc)),
            document_entries(*final(doc)),
            field_id,
            BurkazValueModel::Str(value@),
            document_data_len(*old(doc)) <= u32::MAX && encode_utf8(value@).len() <= u32::MAX,
        ),
        document_data_len(*final(doc)) == document_data_len(*old(doc)) + vint_len(
            encode_utf8(value@).len() as u32,
        ) + encode_utf8(value@).len(),
        document_positions_fit(*final(doc)) == (document_positions_fit(*old(doc))
            && document_data_len(*old(doc)) <= u32::MAX && encode_utf8(value@).len() <= u32::MAX),
{
    document_add_text(doc, field_id, value);
}

/// Writes integers, in order, as the last values of field `field_id`; they
/// read back as written where the data stays within `u32::MAX` bytes up to
/// the start of the last one.
pub fn object_write_int_list(doc: &mut TantivyDocument, field_id: u32, values: &[i64])
    requires
        values@.len() > 0 ==> field_id <= u16::MAX,
    ensures
        extended_for_field(
            document_entries(*old(doc)),
            document_entries(*final(doc)),
            field_id,
            values@.len(),
        ),
        document_data_len(*old(doc)) + 8 * values@.len() <= u32::MAX + 8 ==> document_entries(
            *final(doc),
        ) == document_entries(*old(doc)) + values@.map_values(
            |v: i64| (field_id, BurkazValueModel::I64(v)),
        ),
        document_data_len(*final(doc)) == document_data_len(*old(doc)) + 8 * values@.len(),
        document_positions_fit(*final(doc)) == (document_positions_fit(*old(doc)) && (values@.len()
            == 0 || document_data_len(*old(doc)) + 8 * values@.len() <= u32::MAX + 8)),
{
    let ghost start = document_entries(*doc);
    let ghost start_len = document_data_len(*doc);
    let mut i: usize = 0;
    assert(start.subrange(0, start.len() as int) =~= start);
    while i < values.len()
        invariant
            i <= values@.len(),
            values@.len() > 0 ==> field_id <= u16::MAX,
            start == document_entries(*old(doc)),
            start_len == document_data_len(*old(doc)),
            extended_for_field(start, document_entries(*doc), field_id, i as nat),
            document_data_len(*doc) == start_len + 8 * i,
            document_positions_fit(*doc) == (document_positions_fit(*old(doc)) && (i == 0
                || start_len + 8 * i <= u32::MAX + 8)),
            start_len + 8 * i <= u32::MAX + 8 ==> document_entries(*doc) == start + values@.subrange(
                0,
                i as int,
            ).map_values(|v: i64| (field_id, BurkazValueModel::I64(v))),
        decreases values@.len() - i,
    {
        let ghost before = document_entries(*doc);
        document_add_i64(doc, field_id, values[i]);
        proof {
            lemma_extended_step(start, before, document_entries(*doc), field_id, i as nat,
                BurkazValueModel::I64(values@[i as int]), start_len + 8 * i <= u32::MAX);
            let m = values@.subrange(0, i + 1).map_values(
                |v: i64| (field_id, BurkazValueModel::I64(v)),
            );
            assert(m =~= values@.subrange(0, i as int).map_values(
                |v: i64| (field_id, BurkazValueModel::I64(v)),
            ).push((field_id, BurkazValueModel::I64(values@[i as int]))));
            if start_len + 8 * (i + 1) <= u32::MAX + 8 {
                let after = document_entries(*doc);
                assert(after =~= after.drop_last().push(after.last()));
                assert(after =~= start + m);
            }
        }
        i = i + 1;
    }
    assert(values@.subrange(0, values@.len() as int) =~= values@);
}

/// Writes booleans, in order, as the last values of field `field_id`.
pub fn object_write_boolean_list(doc: &mut TantivyDocument, field_id: u32, values: &[bool])
    requires
        values@.len() > 0 ==> field_id <= u16::MAX,
    ensures
        document_entries(*final(doc)) == document_entries(*old(doc)) + values@.map_values(
            |v: bool| (field_id, BurkazValueModel::Bool(v)),
        ),
        document_data_len(*final(doc)) == document_data_len(*old(doc)),
        document_positions_fit(*final(doc)) == document_positions_fit(*old(doc)),
{
    let mut i: usize = 0;
    while i < values.len()
        invariant
            i <= values@.len(),
            values@.len() > 0 ==> field_id <= u16::MAX,
            document_data_len(*doc) == document_data_len(*old(doc)),
            document_positions_fit(*doc) == document_positions_fit(*old(doc)),
            document_entries(*doc) == document_entries(*old(doc)) + values@.subrange(
                0,
                i as int,
            ).map_values(|v: bool| (field_id, BurkazValueModel::Bool(v))),
        decreases values@.len() - i,
    {
        document_add_bool(doc, field_id, values[i]);
        proof {
            let after = document_entries(*doc);
            assert(after =~= after.drop_last().push(after.last()));
            assert(values@.subrange(0, i + 1).map_values(
                |v: bool| (field_id, BurkazValueModel::Bool(v)),
            ) =~= values@.subrange(0, i as int).map_values(
                |v: bool| (field_id, BurkazValueModel::Bool(v)),
            ).push((field_id, BurkazValueModel::Bool(values@[i as int]))));
        }
        i = i + 1;
    }
    assert(values@.subrange(0, values@.len() as int) =~= values@);
}

/// The stored data that writing `values`, in order, adds to a document:
/// for each text, its length as a variable-length integer and its bytes.
pub open spec fn texts_data_len(values: Seq<String>) -> nat
    decreases values.len(),
{
    if values.len() == 0 {
        0
    } else {
        texts_data_len(values.drop_last()) + vint_len(encode_utf8(values.last()@).len() as u32)
            + encode_utf8(values.last()@).len()
    }
}

proof fn lemma_texts_data_len_prefix(values: Seq<String>, i: int)
    requires
        0 <= i <= values.len(),
    ensures
        texts_data_len(values.subrange(0, i)) <= texts_data_len(values),
    decreases values.len() - i,
{
    if i < values.len() {
        lemma_texts_data_len_prefix(values, i + 1);
        assert(values.subrange(0, i + 1).drop_last() =~= values.subrange(0, i));
    } else {
        assert(values.subrange(0, i) =~= values);
    }
}

/// Writes texts, in order, as the last values of field `field_id`; they
/// read back as written where the data stays within `u32::MAX` bytes.
pub fn object_write_text_list(doc: &mut TantivyDocument, field_id: u32, values: &[String])
    requires
        values@.len() > 0 ==> field_id <= u16::MAX,
    ensures
        extended_for_field(
            document_entries(*old(doc)),
            document_entries(*final(doc)),
            field_id,
            values@.len(),
        ),
        document_data_len(*old(doc)) + texts_data_len(values@) <= u32::MAX ==> document_entries(
            *final(doc),
        ) == document_entries(*old(doc)) + values@.map_values(
            |v: String| (field_id, BurkazValueModel::Str(v@)),
        ),
        document_data_len(*final(doc)) == document_data_len(*old(doc)) + texts_data_len(values@),
        document_positions_fit(*final(doc)) ==> document_positions_fit(*old(doc)),
        document_positions_fit(*old(doc)) && document_data_len(*old(doc)) + texts_data_len(values@)
            <= u32::MAX ==> document_positions_fit(*final(doc)),
{
    let ghost start = document_entries(*doc);
    let ghost start_len = document_data_len(*doc);
    let mut i: usize = 0;
    assert(start.subrange(0, start.len() as int) =~= start);
    while i < values.len()
        invariant
            i <= values@.len(),
            values@.len() > 0 ==> field_id <= u16::MAX,
            start == document_entries(*old(doc)),
            start_len == document_data_len(*old(doc)),
            extended_for_field(start, document_entries(*doc), field_id, i as nat),
            document_data_len(*doc) == start_len + texts_data_len(values@.subrange(0, i as int)),
            document_positions_fit(*doc) ==> document_positions_fit(*old(doc)),
            document_positions_fit(*old(doc)) && start_len + texts_data_len(values@) <= u32::MAX
                ==> document_positions_fit(*doc),
            start_len + texts_data_len(values@) <= u32::MAX ==> document_entries(*doc) == start
                + values@.subrange(0, i as int).map_values(
                |v: String| (field_id, BurkazValueModel::Str(v@)),
            ),
        decreases values@.len() - i,
    {
        let ghost before = document_entries(*doc);
        let ghost before_len = document_data_len(*doc);
        let text = values[i].as_str();
        document_add_text(doc, field_id, text);
        proof {
            let p = values@.subrange(0, i as int);
            let q = values@.subrange(0, i + 1);
            assert(q.drop_last() =~= p);
            lemma_texts_data_len_prefix(values@, i + 1);
            let exact = before_len <= u32::MAX && encode_utf8(values@[i as int]@).len() <= u32::MAX;
            lemma_extended_step(start, before, document_entries(*doc), field_id, i as nat,
                BurkazValueModel::Str(values@[i as int]@), exact);
            let m = q.map_values(|v: String| (field_id, BurkazValueModel::Str(v@)));
            assert(m =~= p.map_values(|v: String| (field_id, BurkazValueModel::Str(v@))).push(
                (field_id, BurkazValueModel::Str(values@[i as int]@)),
            ));
            if start_len + texts_data_len(values@) <= u32::MAX {
                let after = document_entries(*doc);
                assert(after =~= after.drop_last().push(after.last()));
                assert(after =~= start + m);
            }
        }
        i = i + 1;
    }
    assert(values@.subrange(0, values@.len() as int) =~= values@);
}

/// Appending a pair adds its value at the end of its own field's values
/// and changes no other field.
proof fn lemma_field_entries_push(entries: Seq<(u32, BurkazValueModel)>, field_id: u32, value: BurkazValueModel, other: u32)
    requires
        other != field_id,
    ensures
        field_entries(entries.push((field_id, value)), field_id) == field_entries(entries, field_id).push(value),
        field_entries(entries.push((field_id, value)), other) == field_entries(entries, other),
{
    assert(entries.push((field_id, value)).drop_last() =~= entries);
}

/// Read after write, integers: an integer written to a field is the last
/// integer the field lists, the field reads as it where it had no value
/// before (and as before otherwise), and other fields are unchanged.
pub proof fn lemma_write_int_then_read(entries: Seq<(u32, BurkazValueModel)>, field_id: u32, value: i64, other: u32)
    requires
        other != field_id,
    ensures
        int_values(field_entries(entries.push((field_id, BurkazValueModel::I64(value))), field_id))
            == int_values(field_entries(entries, field_id)).push(value),
        first_int(field_entries(entries.push((field_id, BurkazValueModel::I64(value))), field_id))
            == (if field_entries(entries, field_id).len() == 0 {
            Some(value)
        } else {
            first_int(field_entries(entries, field_id))
        }),
        field_entries(entries.push((field_id, BurkazValueModel::I64(value))), other)
            == field_entries(entries, other),
{
    lemma_field_entries_push(entries, field_id, BurkazValueModel::I64(value), other);
    let vs = field_entries(entries, field_id);
    assert(vs.push(BurkazValueModel::I64(value)).drop_last() =~= vs);
}

/// Read after write, booleans: a boolean written to a field is the last
/// boolean the field lists, the field reads as it where it had no value
/// before (and as before otherwise), and other fields are unchanged.
pub proof fn lemma_write_boolean_then_read(entries: Seq<(u32, BurkazValueModel)>, field_id: u32, value: bool, other: u32)
    requires
        other != field_id,
    ensures
        bool_values(field_entries(entries.push((field_id, BurkazValueModel::Bool(value))), field_id))
            == bool_values(field_entries(entries, field_id)).push(value),
        first_bool(field_entries(entries.push((field_id, BurkazValueModel::Bool(value))), field_id))
            == (if field_entries(entries, field_id).len() == 0 {
            Some(value)
        } else {
            first_bool(field_entries(entries, field_id))
        }),
        field_entries(entries.push((field_id, BurkazValueModel::Bool(value))), other)
            == field_entries(entries, other),
{
    lemma_field_entries_push(entries, field_id, BurkazValueModel::Bool(value), other);
    let vs = field_entries(entries, field_id);
    assert(vs.push(BurkazValueModel::Bool(value)).drop_last() =~= vs);
}

/// Read after write, texts: a text with no zero byte written to a field is
/// the last text the field lists, the field reads as it where it had no
/// value before (and as before otherwise), and other fields are unchanged.
pub proof fn lemma_write_text_then_read(entries: Seq<(u32, BurkazValueModel)>, field_id: u32, value: Seq<char>, other: u32)
    requires
        other != field_id,
        nul_free(value),
    ensures
        text_values(field_entries(entries.push((field_id, BurkazValueModel::Str(value))), field_id))
            == text_values(field_entries(entries, field_id)).push(value),
        first_text(field_entries(entries.push((field_id, BurkazValueModel::Str(value))), field_id))
            == (if field_entries(entries, field_id).len() == 0 {
            Some(value)
        } else {
            first_text(field_entries(entries, field_id))
        }),
        field_entries(entries.push((field_id, BurkazValueModel::Str(value))), other)
            == field_entries(entries, other),
{
    lemma_field_entries_push(entries, field_id, BurkazValueModel::Str(value), other);
    let vs = field_entries(entries, field_id);
    assert(vs.push(BurkazValueModel::Str(value)).drop_last() =~= vs);
}

/// Read after write, integer lists: the integers written to a field, in
/// order, are the last integers the field lists.
pub proof fn lemma_write_int_list_then_read(entries: Seq<(u32, BurkazValueModel)>, field_id: u32, values: Seq<i64>)
    ensures
        int_values(field_entries(entries + values.map_values(|v: i64| (field_id, BurkazValueModel::I64(v))), field_id))
            == int_values(field_entries(entries, field_id)) + values,
    decreases values.len(),
{
    let f = |v: i64| (field_id, BurkazValueModel::I64(v));
    if values.len() == 0 {
        assert(entries + values.map_values(f) =~= entries);
        assert(int_values(field_entries(entries, field_id)) + values =~= int_values(field_entries(entries, field_id)));
    } else {
        let init = values.drop_last();
        lemma_write_int_list_then_read(entries, field_id, init);
        let e0 = entries + init.map_values(f);
        assert(entries + values.map_values(f) =~= e0.push((field_id, BurkazValueModel::I64(values.last()))));
        let x = (field_id, BurkazValueModel::I64(values.last()));
        assert(e0.push(x).drop_last() =~= e0);
        let vs = field_entries(e0, field_id);
        assert(vs.push(BurkazValueModel::I64(values.last())).drop_last() =~= vs);
        assert(int_values(field_entries(entries, field_id)) + values =~= (int_values(field_entries(entries, field_id)) + init).push(values.last()));
    }
}

} // verus!
