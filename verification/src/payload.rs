use vstd::prelude::*;

use crate::parser::{type_size, PayloadType, VectorType};

verus! {

// ---------------------------------------------------------------------------------------
// Scalars: little-endian bytes of a bit pattern
// ---------------------------------------------------------------------------------------

/// The little-endian bytes of the low `width` bytes of `x`; `width` is 1, 2, 4 or 8.
pub open spec fn le_scalar(x: u64, width: usize) -> Seq<u8> {
    if width == 1 {
        seq![(x & 0xff) as u8]
    } else if width == 2 {
        seq![(x & 0xff) as u8, ((x >> 8u64) & 0xff) as u8]
    } else if width == 4 {
        seq![
            (x & 0xff) as u8,
            ((x >> 8u64) & 0xff) as u8,
            ((x >> 16u64) & 0xff) as u8,
            ((x >> 24u64) & 0xff) as u8,
        ]
    } else {
        seq![
            (x & 0xff) as u8,
            ((x >> 8u64) & 0xff) as u8,
            ((x >> 16u64) & 0xff) as u8,
            ((x >> 24u64) & 0xff) as u8,
            ((x >> 32u64) & 0xff) as u8,
            ((x >> 40u64) & 0xff) as u8,
            ((x >> 48u64) & 0xff) as u8,
            ((x >> 56u64) & 0xff) as u8,
        ]
    }
}

/// The value of 1, 2, 4 or 8 little-endian bytes.
pub open spec fn scalar_value(b: Seq<u8>) -> u64 {
    if b.len() == 1 {
        b[0] as u64
    } else if b.len() == 2 {
        (b[0] as u64) | ((b[1] as u64) << 8u64)
    } else if b.len() == 4 {
        (b[0] as u64) | ((b[1] as u64) << 8u64) | ((b[2] as u64) << 16u64) | ((b[3] as u64)
            << 24u64)
    } else {
        (b[0] as u64) | ((b[1] as u64) << 8u64) | ((b[2] as u64) << 16u64) | ((b[3] as u64)
            << 24u64) | ((b[4] as u64) << 32u64) | ((b[5] as u64) << 40u64) | ((b[6] as u64)
            << 48u64) | ((b[7] as u64) << 56u64)
    }
}

/// The bit pattern `x` is a value of the scalar type `t`: booleans are 0 or 1, and other
/// types use no more bits than their size. Vectors are not scalars.
pub open spec fn scalar_fits(t: PayloadType, x: u64) -> bool {
    match t {
        PayloadType::BOOL => x <= 1,
        PayloadType::CHAR | PayloadType::U8 | PayloadType::I8 => x < 0x100,
        PayloadType::U16 | PayloadType::I16 => x < 0x10000,
        PayloadType::U32 | PayloadType::I32 | PayloadType::F32 => x < 0x1_0000_0000,
        PayloadType::U64 | PayloadType::I64 | PayloadType::F64 => true,
        PayloadType::VECTOR(_) => false,
    }
}

proof fn lemma_value_of_bytes_1(x: u64)
    requires
        x < 0x100,
    ensures
        ((x & 0xff) as u8) as u64 == x,
{
    assert(((x & 0xff) as u8) as u64 == x) by (bit_vector)
        requires
            x < 0x100,
    ;
}

proof fn lemma_value_of_bytes_2(x: u64)
    requires
        x < 0x10000,
    ensures
        (((x & 0xff) as u8) as u64) | ((((x >> 8u64) & 0xff) as u8) as u64) << 8u64 == x,
{
    assert((((x & 0xff) as u8) as u64) | ((((x >> 8u64) & 0xff) as u8) as u64) << 8u64 == x)
        by (bit_vector)
        requires
            x < 0x10000,
    ;
}

proof fn lemma_value_of_bytes_4(x: u64)
    requires
        x < 0x1_0000_0000,
    ensures
        (((x & 0xff) as u8) as u64) | ((((x >> 8u64) & 0xff) as u8) as u64) << 8u64 | ((((x
            >> 16u64) & 0xff) as u8) as u64) << 16u64 | ((((x >> 24u64) & 0xff) as u8) as u64)
            << 24u64 == x,
{
    assert((((x & 0xff) as u8) as u64) | ((((x >> 8u64) & 0xff) as u8) as u64) << 8u64 | ((((x
        >> 16u64) & 0xff) as u8) as u64) << 16u64 | ((((x >> 24u64) & 0xff) as u8) as u64)
        << 24u64 == x) by (bit_vector)
        requires
            x < 0x1_0000_0000,
    ;
}

proof fn lemma_value_of_bytes_8(x: u64)
    ensures
        (((x & 0xff) as u8) as u64) | ((((x >> 8u64) & 0xff) as u8) as u64) << 8u64 | ((((x
            >> 16u64) & 0xff) as u8) as u64) << 16u64 | ((((x >> 24u64) & 0xff) as u8) as u64)
            << 24u64 | ((((x >> 32u64) & 0xff) as u8) as u64) << 32u64 | ((((x >> 40u64) & 0xff)
            as u8) as u64) << 40u64 | ((((x >> 48u64) & 0xff) as u8) as u64) << 48u64 | ((((x
            >> 56u64) & 0xff) as u8) as u64) << 56u64 == x,
{
    assert((((x & 0xff) as u8) as u64) | ((((x >> 8u64) & 0xff) as u8) as u64) << 8u64 | ((((x
        >> 16u64) & 0xff) as u8) as u64) << 16u64 | ((((x >> 24u64) & 0xff) as u8) as u64)
        << 24u64 | ((((x >> 32u64) & 0xff) as u8) as u64) << 32u64 | ((((x >> 40u64) & 0xff)
        as u8) as u64) << 40u64 | ((((x >> 48u64) & 0xff) as u8) as u64) << 48u64 | ((((x
        >> 56u64) & 0xff) as u8) as u64) << 56u64 == x) by (bit_vector);
}

proof fn lemma_bytes_of_value_1(b0: u8)
    ensures
        ((b0 as u64) & 0xff) as u8 == b0,
{
    assert(((b0 as u64) & 0xff) as u8 == b0) by (bit_vector);
}

proof fn lemma_bytes_of_value_2(b0: u8, b1: u8)
    ensures
        (((b0 as u64) | ((b1 as u64) << 8u64)) & 0xff) as u8 == b0,
        ((((b0 as u64) | ((b1 as u64) << 8u64)) >> 8u64) & 0xff) as u8 == b1,
        (b0 as u64) | ((b1 as u64) << 8u64) < 0x10000,
{
    assert((((b0 as u64) | ((b1 as u64) << 8u64)) & 0xff) as u8 == b0 && ((((b0 as u64) | ((
    b1 as u64) << 8u64)) >> 8u64) & 0xff) as u8 == b1 && (b0 as u64) | ((b1 as u64) << 8u64)
        < 0x10000) by (bit_vector);
}

proof fn lemma_bytes_of_value_4(b0: u8, b1: u8, b2: u8, b3: u8)
    ensures
        ({
            let v = (b0 as u64) | ((b1 as u64) << 8u64) | ((b2 as u64) << 16u64) | ((b3 as u64)
                << 24u64);
            &&& (v & 0xff) as u8 == b0
            &&& ((v >> 8u64) & 0xff) as u8 == b1
            &&& ((v >> 16u64) & 0xff) as u8 == b2
            &&& ((v >> 24u64) & 0xff) as u8 == b3
            &&& v < 0x1_0000_0000
        }),
{
    assert({
        let v = (b0 as u64) | ((b1 as u64) << 8u64) | ((b2 as u64) << 16u64) | ((b3 as u64)
            << 24u64);
        &&& (v & 0xff) as u8 == b0
        &&& ((v >> 8u64) & 0xff) as u8 == b1
        &&& ((v >> 16u64) & 0xff) as u8 == b2
        &&& ((v >> 24u64) & 0xff) as u8 == b3
        &&& v < 0x1_0000_0000
    }) by (bit_vector);
}

proof fn lemma_bytes_of_value_8(b0: u8, b1: u8, b2: u8, b3: u8, b4: u8, b5: u8, b6: u8, b7: u8)
    ensures
        ({
            let v = (b0 as u64) | ((b1 as u64) << 8u64) | ((b2 as u64) << 16u64) | ((b3 as u64)
                << 24u64) | ((b4 as u64) << 32u64) | ((b5 as u64) << 40u64) | ((b6 as u64)
                << 48u64) | ((b7 as u64) << 56u64);
            &&& (v & 0xff) as u8 == b0
            &&& ((v >> 8u64) & 0xff) as u8 == b1
            &&& ((v >> 16u64) & 0xff) as u8 == b2
            &&& ((v >> 24u64) & 0xff) as u8 == b3
            &&& ((v >> 32u64) & 0xff) as u8 == b4
            &&& ((v >> 40u64) & 0xff) as u8 == b5
            &&& ((v >> 48u64) & 0xff) as u8 == b6
            &&& ((v >> 56u64) & 0xff) as u8 == b7
        }),
{
    assert({
        let v = (b0 as u64) | ((b1 as u64) << 8u64) | ((b2 as u64) << 16u64) | ((b3 as u64)
            << 24u64) | ((b4 as u64) << 32u64) | ((b5 as u64) << 40u64) | ((b6 as u64)
            << 48u64) | ((b7 as u64) << 56u64);
        &&& (v & 0xff) as u8 == b0
        &&& ((v >> 8u64) & 0xff) as u8 == b1
        &&& ((v >> 16u64) & 0xff) as u8 == b2
        &&& ((v >> 24u64) & 0xff) as u8 == b3
        &&& ((v >> 32u64) & 0xff) as u8 == b4
        &&& ((v >> 40u64) & 0xff) as u8 == b5
        &&& ((v >> 48u64) & 0xff) as u8 == b6
        &&& ((v >> 56u64) & 0xff) as u8 == b7
    }) by (bit_vector);
}

/// Reading back the bytes of a scalar gives the scalar.
proof fn lemma_scalar_roundtrip(t: PayloadType, x: u64)
    requires
        scalar_fits(t, x),
    ensures
        le_scalar(x, type_size(t)).len() == type_size(t),
        scalar_value(le_scalar(x, type_size(t))) == x,
{
    let w = type_size(t);
    if w == 1 {
        lemma_value_of_bytes_1(x);
    } else if w == 2 {
        lemma_value_of_bytes_2(x);
    } else if w == 4 {
        lemma_value_of_bytes_4(x);
    } else {
        lemma_value_of_bytes_8(x);
    }
}

/// Writing out the value of scalar bytes gives the bytes.
proof fn lemma_scalar_bytes(b: Seq<u8>)
    requires
        b.len() == 1 || b.len() == 2 || b.len() == 4 || b.len() == 8,
    ensures
        le_scalar(scalar_value(b), b.len() as usize) == b,
{
    if b.len() == 1 {
        lemma_bytes_of_value_1(b[0]);
        assert(le_scalar(scalar_value(b), 1) =~= b);
    } else if b.len() == 2 {
        lemma_bytes_of_value_2(b[0], b[1]);
        assert(le_scalar(scalar_value(b), 2) =~= b);
    } else if b.len() == 4 {
        lemma_bytes_of_value_4(b[0], b[1], b[2], b[3]);
        assert(le_scalar(scalar_value(b), 4) =~= b);
    } else {
        lemma_bytes_of_value_8(b[0], b[1], b[2], b[3], b[4], b[5], b[6], b[7]);
        assert(le_scalar(scalar_value(b), 8) =~= b);
    }
}

// ---------------------------------------------------------------------------------------
// Field values and the payload format
// ---------------------------------------------------------------------------------------

/// The value of one field of a message. Scalars are carried by their bit pattern: unsigned
/// integers as they are, signed integers by their two's complement, floats by their IEEE
/// bits, booleans as 0 or 1, characters by their byte.
#[derive(Debug, Clone, PartialEq)]
pub enum FieldValue {
    /// A field of a scalar type.
    Scalar(u64),
    /// A vector with a size prefix: the length that the prefix holds, and the items, each
    /// by its bit pattern.
    Vector(u64, Vec<u64>),
    /// A vector without a size prefix: the bytes of a string.
    Text(Vec<u8>),
}

/// Model of a field value.
pub enum FieldValueModel {
    Scalar(u64),
    Vector(u64, Seq<u64>),
    Text(Seq<u8>),
}

impl View for FieldValue {
    type V = FieldValueModel;

    open spec fn view(&self) -> FieldValueModel {
        match self {
            FieldValue::Scalar(x) => FieldValueModel::Scalar(*x),
            FieldValue::Vector(n, items) => FieldValueModel::Vector(*n, items@),
            FieldValue::Text(bytes) => FieldValueModel::Text(bytes@),
        }
    }
}

/// The models of a sequence of field values.
pub open spec fn values_view(values: Seq<FieldValue>) -> Seq<FieldValueModel> {
    values.map_values(|v: FieldValue| v@)
}

/// The items of a vector, one after the other, each in the size of the item type.
pub open spec fn encode_items(t: PayloadType, items: Seq<u64>) -> Seq<u8>
    decreases items.len(),
{
    if items.len() == 0 {
        Seq::empty()
    } else {
        le_scalar(items[0], type_size(t)) + encode_items(t, items.drop_first())
    }
}

/// The bytes of one field: a scalar little-endian in the size of its type; a vector with a
/// size type as its length in that size, followed by the items; a vector without one as
/// the string's bytes followed by a zero byte.
pub open spec fn encode_field(t: PayloadType, v: FieldValueModel) -> Seq<u8> {
    match t {
        PayloadType::VECTOR(vt) => match vt.size_type {
            Some(st) => match v {
                FieldValueModel::Vector(n, items) => le_scalar(n, type_size(st)) + encode_items(
                    vt.data_type,
                    items,
                ),
                _ => Seq::empty(),
            },
            None => match v {
                FieldValueModel::Text(bytes) => bytes.push(0),
                _ => Seq::empty(),
            },
        },
        _ => match v {
            FieldValueModel::Scalar(x) => le_scalar(x, type_size(t)),
            _ => Seq::empty(),
        },
    }
}

/// The bytes of a payload: the fields in order.
pub open spec fn encode_fields(types: Seq<PayloadType>, values: Seq<FieldValueModel>) -> Seq<u8>
    decreases types.len(),
{
    if types.len() == 0 {
        Seq::empty()
    } else {
        encode_field(types[0], values[0]) + encode_fields(types.drop_first(), values.drop_first())
    }
}

/// `v` has the shape of a field of type `t` and every scalar in it fits its type, so that it
/// can be written out.
pub open spec fn field_encodable(t: PayloadType, v: FieldValueModel) -> bool {
    match t {
        PayloadType::VECTOR(vt) => match vt.size_type {
            Some(st) => match v {
                FieldValueModel::Vector(n, items) => {
                    &&& !(st is VECTOR)
                    &&& !(vt.data_type is VECTOR)
                    &&& scalar_fits(st, n)
                    &&& forall|k: int| 0 <= k < items.len() ==> scalar_fits(vt.data_type, #[trigger] items[k])
                },
                _ => false,
            },
            None => v is Text,
        },
        _ => match v {
            FieldValueModel::Scalar(x) => scalar_fits(t, x),
            _ => false,
        },
    }
}

/// `v` is a field of type `t` that reads back from its bytes: it can be written out, a
/// vector's length is its number of items, and a string holds no zero byte.
pub open spec fn field_matches(t: PayloadType, v: FieldValueModel) -> bool {
    &&& field_encodable(t, v)
    &&& v matches FieldValueModel::Vector(n, items) ==> items.len() == n
    &&& v matches FieldValueModel::Text(bytes) ==> forall|k: int|
        0 <= k < bytes.len() ==> #[trigger] bytes[k] != 0
}

pub open spec fn values_encodable(types: Seq<PayloadType>, values: Seq<FieldValueModel>) -> bool {
    &&& types.len() == values.len()
    &&& forall|i: int| 0 <= i < types.len() ==> field_encodable(#[trigger] types[i], values[i])
}

pub open spec fn values_match(types: Seq<PayloadType>, values: Seq<FieldValueModel>) -> bool {
    &&& types.len() == values.len()
    &&& forall|i: int| 0 <= i < types.len() ==> field_matches(#[trigger] types[i], values[i])
}

// ---------------------------------------------------------------------------------------
// Reading a payload back
// ---------------------------------------------------------------------------------------

/// The scalar of type `t` at the start of `b`, if `b` is long enough and it fits the type.
pub open spec fn decode_scalar(t: PayloadType, b: Seq<u8>) -> Option<u64> {
    if t is VECTOR || b.len() < type_size(t) {
        None
    } else if scalar_fits(t, scalar_value(b.take(type_size(t) as int))) {
        Some(scalar_value(b.take(type_size(t) as int)))
    } else {
        None
    }
}

/// `n` items of type `t` at the start of `b`, and the number of bytes they take.
pub open spec fn decode_items(t: PayloadType, b: Seq<u8>, n: nat) -> Option<(Seq<u64>, nat)>
    decreases n,
{
    if n == 0 {
        Some((Seq::empty(), 0))
    } else {
        match decode_scalar(t, b) {
            None => None,
            Some(x) => match decode_items(t, b.skip(type_size(t) as int), (n - 1) as nat) {
                None => None,
                Some((rest, used)) => Some((seq![x] + rest, type_size(t) as nat + used)),
            },
        }
    }
}

/// The index of the first zero byte of `b` at or after `k`.
pub open spec fn zero_index(b: Seq<u8>, k: nat) -> Option<nat>
    decreases b.len() - k,
{
    if k >= b.len() {
        None
    } else if b[k as int] == 0 {
        Some(k)
    } else {
        zero_index(b, k + 1)
    }
}

/// The field of type `t` at the start of `b`, and the number of bytes it takes.
pub open spec fn decode_field(t: PayloadType, b: Seq<u8>) -> Option<(FieldValueModel, nat)> {
    match t {
        PayloadType::VECTOR(vt) => match vt.size_type {
            Some(st) => {
                if st is VECTOR || vt.data_type is VECTOR {
                    None
                } else {
                    match decode_scalar(st, b) {
                        None => None,
                        Some(n) => match decode_items(
                            vt.data_type,
                            b.skip(type_size(st) as int),
                            n as nat,
                        ) {
                            None => None,
                            Some((items, used)) => Some(
                                (FieldValueModel::Vector(n, items), type_size(st) as nat + used),
                            ),
                        },
                    }
                }
            },
            None => match zero_index(b, 0) {
                None => None,
                Some(k) => Some((FieldValueModel::Text(b.take(k as int)), k + 1)),
            },
        },
        _ => match decode_scalar(t, b) {
            None => None,
            Some(x) => Some((FieldValueModel::Scalar(x), type_size(t) as nat)),
        },
    }
}

/// Reads fields of the types `types` one after the other from `b`, which they must use up.
pub open spec fn decode_fields(types: Seq<PayloadType>, b: Seq<u8>) -> Option<
    Seq<FieldValueModel>,
>
    decreases types.len(),
{
    if types.len() == 0 {
        if b.len() == 0 {
            Some(Seq::empty())
        } else {
            None
        }
    } else {
        match decode_field(types[0], b) {
            None => None,
            Some((v, used)) => match decode_fields(types.drop_first(), b.skip(used as int)) {
                None => None,
                Some(rest) => Some(seq![v] + rest),
            },
        }
    }
}

// ---------------------------------------------------------------------------------------
// Reading back what was written, and writing back what was read
// ---------------------------------------------------------------------------------------

proof fn lemma_decode_scalar_complete(t: PayloadType, x: u64, rest: Seq<u8>)
    requires
        scalar_fits(t, x),
    ensures
        decode_scalar(t, le_scalar(x, type_size(t)) + rest) == Some(x),
{
    lemma_scalar_roundtrip(t, x);
    let e = le_scalar(x, type_size(t));
    assert((e + rest).take(type_size(t) as int) =~= e);
}

proof fn lemma_decode_scalar_sound(t: PayloadType, b: Seq<u8>)
    requires
        decode_scalar(t, b) is Some,
    ensures
        type_size(t) <= b.len(),
        type_size(t) > 0,
        scalar_fits(t, decode_scalar(t, b)->0),
        le_scalar(decode_scalar(t, b)->0, type_size(t)) == b.take(type_size(t) as int),
{
    lemma_scalar_bytes(b.take(type_size(t) as int));
}

proof fn lemma_decode_items_complete(t: PayloadType, items: Seq<u64>, rest: Seq<u8>)
    requires
        forall|k: int| 0 <= k < items.len() ==> scalar_fits(t, #[trigger] items[k]),
    ensures
        decode_items(t, encode_items(t, items) + rest, items.len()) == Some(
            (items, encode_items(t, items).len()),
        ),
    decreases items.len(),
{
    if items.len() > 0 {
        let w = type_size(t);
        let head = le_scalar(items[0], w);
        let tail = encode_items(t, items.drop_first());
        assert(encode_items(t, items) + rest =~= head + (tail + rest));
        lemma_decode_scalar_complete(t, items[0], tail + rest);
        lemma_scalar_roundtrip(t, items[0]);
        assert((head + (tail + rest)).skip(w as int) =~= tail + rest);
        lemma_decode_items_complete(t, items.drop_first(), rest);
        assert(seq![items[0]] + items.drop_first() =~= items);
    }
}

proof fn lemma_decode_items_sound(t: PayloadType, b: Seq<u8>, n: nat)
    requires
        decode_items(t, b, n) is Some,
    ensures
        ({
            let (items, used) = decode_items(t, b, n)->0;
            &&& items.len() == n
            &&& used <= b.len()
            &&& forall|k: int| 0 <= k < items.len() ==> scalar_fits(t, #[trigger] items[k])
            &&& encode_items(t, items) == b.take(used as int)
        }),
    decreases n,
{
    if n > 0 {
        let w = type_size(t);
        lemma_decode_scalar_sound(t, b);
        let x = decode_scalar(t, b)->0;
        lemma_decode_items_sound(t, b.skip(w as int), (n - 1) as nat);
        let (rest, used) = decode_items(t, b.skip(w as int), (n - 1) as nat)->0;
        let items = seq![x] + rest;
        assert(items.drop_first() =~= rest);
        assert(items[0] == x);
        assert forall|k: int| 0 <= k < items.len() implies scalar_fits(t, #[trigger] items[k]) by {
            if k > 0 {
                assert(items[k] == rest[k - 1]);
            }
        }
        assert(b.take(w as int) + b.skip(w as int).take(used as int) =~= b.take(w + used));
    } else {
        assert(b.take(0) =~= Seq::<u8>::empty());
    }
}

proof fn lemma_zero_index_complete(bytes: Seq<u8>, rest: Seq<u8>, k: nat)
    requires
        forall|m: int| 0 <= m < bytes.len() ==> #[trigger] bytes[m] != 0,
        k <= bytes.len(),
    ensures
        zero_index(bytes.push(0) + rest, k) == Some(bytes.len()),
    decreases bytes.len() - k,
{
    let b = bytes.push(0) + rest;
    if k < bytes.len() {
        assert(b[k as int] == bytes[k as int]);
        lemma_zero_index_complete(bytes, rest, k + 1);
    } else {
        assert(b[k as int] == 0);
    }
}

proof fn lemma_zero_index_sound(b: Seq<u8>, k: nat)
    requires
        zero_index(b, k) is Some,
    ensures
        k <= zero_index(b, k)->0 < b.len(),
        b[zero_index(b, k)->0 as int] == 0,
        forall|m: int| k <= m < zero_index(b, k)->0 ==> #[trigger] b[m] != 0,
    decreases b.len() - k,
{
    if k < b.len() && b[k as int] != 0 {
        lemma_zero_index_sound(b, k + 1);
    }
}

proof fn lemma_decode_field_complete(t: PayloadType, v: FieldValueModel, rest: Seq<u8>)
    requires
        field_matches(t, v),
    ensures
        decode_field(t, encode_field(t, v) + rest) == Some((v, encode_field(t, v).len())),
{
    let e = encode_field(t, v);
    match t {
        PayloadType::VECTOR(vt) => match vt.size_type {
            Some(st) => {
                let n = v->Vector_0;
                let items = v->Vector_1;
                let ws = type_size(st);
                let body = encode_items(vt.data_type, items);
                assert(e + rest =~= le_scalar(n, ws) + (body + rest));
                lemma_decode_scalar_complete(st, n, body + rest);
                lemma_scalar_roundtrip(st, n);
                assert((le_scalar(n, ws) + (body + rest)).skip(ws as int) =~= body + rest);
                lemma_decode_items_complete(vt.data_type, items, rest);
            },
            None => {
                let bytes = v->Text_0;
                lemma_zero_index_complete(bytes, rest, 0);
                assert((e + rest).take(bytes.len() as int) =~= bytes);
            },
        },
        _ => {
            lemma_decode_scalar_complete(t, v->Scalar_0, rest);
            lemma_scalar_roundtrip(t, v->Scalar_0);
        },
    }
}

proof fn lemma_decode_field_sound(t: PayloadType, b: Seq<u8>)
    requires
        decode_field(t, b) is Some,
    ensures
        ({
            let (v, used) = decode_field(t, b)->0;
            &&& field_matches(t, v)
            &&& used <= b.len()
            &&& encode_field(t, v) == b.take(used as int)
        }),
{
    match t {
        PayloadType::VECTOR(vt) => match vt.size_type {
            Some(st) => {
                let ws = type_size(st);
                lemma_decode_scalar_sound(st, b);
                let n = decode_scalar(st, b)->0;
                lemma_decode_items_sound(vt.data_type, b.skip(ws as int), n as nat);
                let (items, used) = decode_items(vt.data_type, b.skip(ws as int), n as nat)->0;
                assert(items.len() as u64 == n);
                assert(b.take(ws as int) + b.skip(ws as int).take(used as int) =~= b.take(
                    ws + used,
                ));
            },
            None => {
                lemma_zero_index_sound(b, 0);
                let k = zero_index(b, 0)->0;
                let bytes = b.take(k as int);
                assert forall|m: int| 0 <= m < bytes.len() implies #[trigger] bytes[m] != 0 by {
                    assert(bytes[m] == b[m]);
                }
                assert(bytes.push(0) =~= b.take(k + 1 as int));
            },
        },
        _ => {
            lemma_decode_scalar_sound(t, b);
        },
    }
}

/// Reading back the bytes of fields that match their types gives the fields.
pub proof fn law_payload_roundtrip(types: Seq<PayloadType>, values: Seq<FieldValueModel>)
    requires
        values_match(types, values),
    ensures
        decode_fields(types, encode_fields(types, values)) == Some(values),
    decreases types.len(),
{
    if types.len() > 0 {
        let head = encode_field(types[0], values[0]);
        let tail = encode_fields(types.drop_first(), values.drop_first());
        assert(field_matches(types[0], values[0]));
        lemma_decode_field_complete(types[0], values[0], tail);
        assert((head + tail).skip(head.len() as int) =~= tail);
        assert forall|i: int| 0 <= i < types.drop_first().len() implies field_matches(
            #[trigger] types.drop_first()[i],
            values.drop_first()[i],
        ) by {
            assert(field_matches(types[i + 1], values[i + 1]));
        }
        law_payload_roundtrip(types.drop_first(), values.drop_first());
        assert(seq![values[0]] + values.drop_first() =~= values);
    } else {
        assert(values =~= Seq::<FieldValueModel>::empty());
    }
}

/// Fields read from a payload match their types and are written back as exactly that
/// payload.
pub proof fn law_decoded_payload_is_exact(types: Seq<PayloadType>, b: Seq<u8>)
    requires
        decode_fields(types, b) is Some,
    ensures
        values_match(types, decode_fields(types, b)->0),
        encode_fields(types, decode_fields(types, b)->0) == b,
    decreases types.len(),
{
    let values = decode_fields(types, b)->0;
    if types.len() > 0 {
        lemma_decode_field_sound(types[0], b);
        let (v, used) = decode_field(types[0], b)->0;
        let rest = b.skip(used as int);
        law_decoded_payload_is_exact(types.drop_first(), rest);
        let tail = decode_fields(types.drop_first(), rest)->0;
        assert(values =~= seq![v] + tail);
        assert(values.drop_first() =~= tail);
        assert forall|i: int| 0 <= i < types.len() implies field_matches(
            #[trigger] types[i],
            values[i],
        ) by {
            if i > 0 {
                assert(field_matches(types.drop_first()[i - 1], tail[i - 1]));
            }
        }
        assert(b.take(used as int) + rest =~= b);
    } else {
        assert(b =~= Seq::<u8>::empty());
    }
}

// ---------------------------------------------------------------------------------------
// Every bit pattern of a scalar's width is a value
// ---------------------------------------------------------------------------------------

/// The value of bytes of a scalar's width fits in that many bytes.
proof fn lemma_scalar_value_bound(b: Seq<u8>)
    requires
        b.len() == 1 || b.len() == 2 || b.len() == 4 || b.len() == 8,
    ensures
        b.len() == 1 ==> scalar_value(b) < 0x100,
        b.len() == 2 ==> scalar_value(b) < 0x10000,
        b.len() == 4 ==> scalar_value(b) < 0x1_0000_0000,
{
    if b.len() == 2 {
        lemma_bytes_of_value_2(b[0], b[1]);
    } else if b.len() == 4 {
        lemma_bytes_of_value_4(b[0], b[1], b[2], b[3]);
    }
}

/// Every value that fits in a scalar type's width is a value of the type, signed and
/// float types included (by their two's complement and IEEE bit patterns); a boolean is 0 or
/// 1.
pub proof fn law_scalar_values(t: PayloadType, x: u64)
    requires
        !(t is VECTOR),
    ensures
        t is BOOL ==> (scalar_fits(t, x) <==> x <= 1),
        type_size(t) == 1 && !(t is BOOL) ==> (scalar_fits(t, x) <==> x < 0x100),
        type_size(t) == 2 ==> (scalar_fits(t, x) <==> x < 0x10000),
        type_size(t) == 4 ==> (scalar_fits(t, x) <==> x < 0x1_0000_0000),
        type_size(t) == 8 ==> scalar_fits(t, x),
{
}

/// A field of a scalar type reads from every bit pattern of its width (a boolean from the
/// bytes 0 and 1), as the value of those bytes: a negative signed integer or any float is
/// read as its bit pattern.
pub proof fn law_every_pattern_reads(t: PayloadType, b: Seq<u8>)
    requires
        !(t is VECTOR),
        b.len() == type_size(t),
        t is BOOL ==> b[0] <= 1,
    ensures
        decode_fields(seq![t], b) == Some(seq![FieldValueModel::Scalar(scalar_value(b))]),
{
    lemma_scalar_value_bound(b);
    assert(b.take(type_size(t) as int) =~= b);
    assert(decode_scalar(t, b) == Some(scalar_value(b)));
    assert(seq![t].drop_first() =~= Seq::<PayloadType>::empty());
    assert(b.skip(type_size(t) as int) =~= Seq::<u8>::empty());
    assert(decode_fields(seq![t].drop_first(), b.skip(type_size(t) as int)) == Some(
        Seq::<FieldValueModel>::empty(),
    ));
    assert(seq![FieldValueModel::Scalar(scalar_value(b))] + Seq::<FieldValueModel>::empty()
        =~= seq![FieldValueModel::Scalar(scalar_value(b))]);
}

proof fn lemma_items_length(t: PayloadType, items: Seq<u64>)
    requires
        !(t is VECTOR),
    ensures
        encode_items(t, items).len() == items.len() * type_size(t),
    decreases items.len(),
{
    if items.len() > 0 {
        lemma_items_length(t, items.drop_first());
        let w = type_size(t) as int;
        let n = items.len() as int;
        assert(le_scalar(items[0], type_size(t)).len() == w);
        assert(w + (n - 1) * w == n * w) by (nonlinear_arith);
    }
}

/// A vector with a length type is written as the length the message holds, in the size of
/// the length type, followed by each item in the size of the item type, in order, whatever
/// the number of items.
pub proof fn law_sized_vector_layout(vt: Box<VectorType>, n: u64, items: Seq<u64>)
    requires
        vt.size_type matches Some(st) && !(st is VECTOR),
        !(vt.data_type is VECTOR),
    ensures
        ({
            let st = vt.size_type->0;
            let w = type_size(st) as int;
            let iw = type_size(vt.data_type) as int;
            let bytes = encode_fields(
                seq![PayloadType::VECTOR(vt)],
                seq![FieldValueModel::Vector(n, items)],
            );
            &&& bytes.len() == w + items.len() * iw
            &&& bytes.take(w) == le_scalar(n, type_size(st))
            &&& forall|k: int|
                0 <= k < items.len() ==> #[trigger] bytes.subrange(w + k * iw, w + k * iw + iw)
                    == le_scalar(items[k], type_size(vt.data_type))
        }),
{
    let st = vt.size_type->0;
    let w = type_size(st) as int;
    let iw = type_size(vt.data_type) as int;
    let t = PayloadType::VECTOR(vt);
    let v = FieldValueModel::Vector(n, items);
    let head = le_scalar(n, type_size(st));
    let body = encode_items(vt.data_type, items);
    assert(seq![t].drop_first() =~= Seq::<PayloadType>::empty());
    assert(encode_field(t, v) == head + body);
    assert(encode_fields(seq![t].drop_first(), seq![v].drop_first()) == Seq::<u8>::empty());
    assert(encode_fields(seq![t], seq![v]) =~= (head + body) + Seq::<u8>::empty());
    assert(encode_fields(seq![t], seq![v]) =~= head + body);
    assert(head.len() == w);
    lemma_items_length(vt.data_type, items);
    assert forall|k: int| 0 <= k < items.len() implies #[trigger] (head + body).subrange(
        w + k * iw,
        w + k * iw + iw,
    ) == le_scalar(items[k], type_size(vt.data_type)) by {
        lemma_item_at(vt.data_type, items, k);
        assert((head + body).subrange(w + k * iw, w + k * iw + iw) =~= body.subrange(
            k * iw,
            k * iw + iw,
        ));
    }
    assert((head + body).take(w) =~= head);
}

proof fn lemma_item_at(t: PayloadType, items: Seq<u64>, k: int)
    requires
        !(t is VECTOR),
        0 <= k < items.len(),
    ensures
        encode_items(t, items).subrange(k * type_size(t), k * type_size(t) + type_size(t)) == le_scalar(
            items[k],
            type_size(t),
        ),
        k * type_size(t) + type_size(t) <= encode_items(t, items).len(),
    decreases k,
{
    let w = type_size(t) as int;
    let head = le_scalar(items[0], type_size(t));
    let tail = encode_items(t, items.drop_first());
    assert(head.len() == w);
    lemma_items_length(t, items.drop_first());
    lemma_items_length(t, items);
    if k == 0 {
        assert((head + tail).subrange(0, w) =~= head);
    } else {
        lemma_item_at(t, items.drop_first(), k - 1);
        assert(k * w == w + (k - 1) * w) by (nonlinear_arith);
        assert((head + tail).subrange(k * w, k * w + w) =~= tail.subrange(
            (k - 1) * w,
            (k - 1) * w + w,
        ));
    }
}

// ---------------------------------------------------------------------------------------
// Where the fields of a payload of scalars lie
// ---------------------------------------------------------------------------------------

/// The total size of fields of the types `types`.
pub open spec fn sizes_sum(types: Seq<PayloadType>) -> nat
    decreases types.len(),
{
    if types.len() == 0 {
        0
    } else {
        type_size(types[0]) as nat + sizes_sum(types.drop_first())
    }
}

/// Where field `i` starts in a payload of fields of the types `types`: the sizes of the
/// fields before it.
pub open spec fn field_offset(types: Seq<PayloadType>, i: int) -> nat {
    sizes_sum(types.take(i))
}

/// No type in `types` is a vector.
pub open spec fn all_scalar(types: Seq<PayloadType>) -> bool {
    forall|i: int| 0 <= i < types.len() ==> !(#[trigger] types[i] is VECTOR)
}

proof fn lemma_offset_step(types: Seq<PayloadType>, i: int)
    requires
        0 < i <= types.len(),
    ensures
        field_offset(types, i) == type_size(types[0]) + field_offset(types.drop_first(), i - 1),
{
    assert(types.take(i).drop_first() =~= types.drop_first().take(i - 1));
}

proof fn lemma_offset_next(types: Seq<PayloadType>, i: int)
    requires
        0 <= i < types.len(),
    ensures
        field_offset(types, i + 1) == field_offset(types, i) + type_size(types[i]),
    decreases i,
{
    lemma_offset_step(types, i + 1);
    if i > 0 {
        lemma_offset_step(types, i);
        lemma_offset_next(types.drop_first(), i - 1);
    } else {
        assert(types.take(0) =~= Seq::<PayloadType>::empty());
        assert(types.drop_first().take(0) =~= Seq::<PayloadType>::empty());
    }
}

proof fn lemma_offset_bound(types: Seq<PayloadType>, i: int)
    requires
        0 <= i <= types.len(),
    ensures
        field_offset(types, i) <= sizes_sum(types),
    decreases i,
{
    if i > 0 {
        lemma_offset_step(types, i);
        lemma_offset_bound(types.drop_first(), i - 1);
    } else {
        assert(types.take(0) =~= Seq::<PayloadType>::empty());
    }
}

/// A payload of fields of scalar types is as long as the sum of their sizes, and field `i`
/// is written little-endian in the size of its type at the offset of the sizes before it,
/// in the order of the definition.
pub proof fn law_scalar_payload_layout(types: Seq<PayloadType>, values: Seq<FieldValueModel>)
    requires
        values_encodable(types, values),
        all_scalar(types),
    ensures
        encode_fields(types, values).len() == sizes_sum(types),
        forall|i: int|
            0 <= i < types.len() ==> #[trigger] encode_fields(types, values).subrange(
                field_offset(types, i) as int,
                field_offset(types, i + 1) as int,
            ) == le_scalar(values[i]->Scalar_0, type_size(types[i])),
    decreases types.len(),
{
    if types.len() > 0 {
        let tt = types.drop_first();
        let tv = values.drop_first();
        assert forall|i: int| 0 <= i < tt.len() implies field_encodable(#[trigger] tt[i], tv[i]) by {
            assert(field_encodable(types[i + 1], values[i + 1]));
        }
        assert forall|i: int| 0 <= i < tt.len() implies !(#[trigger] tt[i] is VECTOR) by {
            assert(!(types[i + 1] is VECTOR));
        }
        law_scalar_payload_layout(tt, tv);
        assert(field_encodable(types[0], values[0]));
        assert(!(types[0] is VECTOR));
        let w = type_size(types[0]);
        let head = encode_field(types[0], values[0]);
        lemma_scalar_roundtrip(types[0], values[0]->Scalar_0);
        assert(head == le_scalar(values[0]->Scalar_0, w));
        let rest = encode_fields(tt, tv);
        assert(encode_fields(types, values) == head + rest);
        assert forall|i: int| 0 <= i < types.len() implies #[trigger] encode_fields(
            types,
            values,
        ).subrange(field_offset(types, i) as int, field_offset(types, i + 1) as int) == le_scalar(
            values[i]->Scalar_0,
            type_size(types[i]),
        ) by {
            lemma_offset_step(types, i + 1);
            if i == 0 {
                assert(types.take(0) =~= Seq::<PayloadType>::empty());
                assert(tt.take(0) =~= Seq::<PayloadType>::empty());
                assert((head + rest).subrange(0, w as int) =~= head);
            } else {
                lemma_offset_step(types, i);
                lemma_offset_next(tt, i - 1);
                lemma_offset_bound(tt, i);
                let a = field_offset(tt, i - 1) as int;
                let z = field_offset(tt, i) as int;
                assert(rest.subrange(a, z) == le_scalar(tv[i - 1]->Scalar_0, type_size(tt[i - 1])));
                assert((head + rest).subrange(w + a, w + z) =~= rest.subrange(a, z));
            }
        }
    }
}

/// Reading a payload of fields of scalar types: it is as long as the sum of their sizes,
/// and field `i` is the value of the bytes at the offset of the sizes before it.
pub proof fn law_scalar_payload_fields(types: Seq<PayloadType>, b: Seq<u8>)
    requires
        decode_fields(types, b) is Some,
        all_scalar(types),
    ensures
        b.len() == sizes_sum(types),
        forall|i: int|
            0 <= i < types.len() ==> decode_fields(types, b)->0[i] == FieldValueModel::Scalar(
                scalar_value(
                    #[trigger] b.subrange(field_offset(types, i) as int, field_offset(types, i + 1) as int),
                ),
            ),
{
    let values = decode_fields(types, b)->0;
    law_decoded_payload_is_exact(types, b);
    assert forall|i: int| 0 <= i < types.len() implies field_encodable(#[trigger] types[i], values[i]) by {
        assert(field_matches(types[i], values[i]));
    }
    law_scalar_payload_layout(types, values);
    assert forall|i: int| 0 <= i < types.len() implies values[i] == FieldValueModel::Scalar(
        scalar_value(
            #[trigger] b.subrange(field_offset(types, i) as int, field_offset(types, i + 1) as int),
        ),
    ) by {
        assert(field_encodable(types[i], values[i]));
        assert(!(types[i] is VECTOR));
        lemma_scalar_roundtrip(types[i], values[i]->Scalar_0);
        assert(encode_fields(types, values).subrange(
            field_offset(types, i) as int,
            field_offset(types, i + 1) as int,
        ) == le_scalar(values[i]->Scalar_0, type_size(types[i])));
    }
}

// ---------------------------------------------------------------------------------------
// Executable encoder and decoder
// ---------------------------------------------------------------------------------------

/// Whether the bit pattern `x` is a value of the scalar type `t`.
pub fn scalar_fits_type(t: &PayloadType, x: u64) -> (fits: bool)
    ensures
        fits == scalar_fits(*t, x),
{
    match t {
        PayloadType::BOOL => x <= 1,
        PayloadType::CHAR | PayloadType::U8 | PayloadType::I8 => x < 0x100,
        PayloadType::U16 | PayloadType::I16 => x < 0x10000,
        PayloadType::U32 | PayloadType::I32 | PayloadType::F32 => x < 0x1_0000_0000,
        PayloadType::U64 | PayloadType::I64 | PayloadType::F64 => true,
        PayloadType::VECTOR(_) => false,
    }
}

/// Appends the little-endian bytes of the low `width` bytes of `x`.
fn push_scalar(out: &mut Vec<u8>, x: u64, width: usize)
    ensures
        final(out)@ == old(out)@ + le_scalar(x, width),
{
    out.push((x & 0xff) as u8);
    if width != 1 {
        out.push(((x >> 8u64) & 0xff) as u8);
        if width != 2 {
            out.push(((x >> 16u64) & 0xff) as u8);
            out.push(((x >> 24u64) & 0xff) as u8);
            if width != 4 {
                out.push(((x >> 32u64) & 0xff) as u8);
                out.push(((x >> 40u64) & 0xff) as u8);
                out.push(((x >> 48u64) & 0xff) as u8);
                out.push(((x >> 56u64) & 0xff) as u8);
            }
        }
    }
    assert(final(out)@ =~= old(out)@ + le_scalar(x, width));
}

/// Reads the scalar of type `t` at `pos`.
fn read_scalar(t: &PayloadType, b: &[u8], pos: usize) -> (x: Option<u64>)
    requires
        pos <= b@.len(),
    ensures
        x == decode_scalar(*t, b@.skip(pos as int)),
{
    let width: usize = t.to_size();
    if width == 0 || b.len() - pos < width {
        return None;
    }
    let ghost s = b@.skip(pos as int).take(width as int);
    let x: u64 = if width == 1 {
        b[pos] as u64
    } else if width == 2 {
        (b[pos] as u64) | ((b[pos + 1] as u64) << 8u64)
    } else if width == 4 {
        (b[pos] as u64) | ((b[pos + 1] as u64) << 8u64) | ((b[pos + 2] as u64) << 16u64) | ((b[pos
            + 3] as u64) << 24u64)
    } else {
        (b[pos] as u64) | ((b[pos + 1] as u64) << 8u64) | ((b[pos + 2] as u64) << 16u64) | ((b[pos
            + 3] as u64) << 24u64) | ((b[pos + 4] as u64) << 32u64) | ((b[pos + 5] as u64)
            << 40u64) | ((b[pos + 6] as u64) << 48u64) | ((b[pos + 7] as u64) << 56u64)
    };
    assert(x == scalar_value(s));
    if scalar_fits_type(t, x) {
        Some(x)
    } else {
        None
    }
}

/// Appends the bytes of one field.
fn encode_field_into(out: &mut Vec<u8>, t: &PayloadType, v: &FieldValue)
    requires
        field_encodable(*t, v@),
    ensures
        final(out)@ == old(out)@ + encode_field(*t, v@),
{
    match t {
        PayloadType::VECTOR(vt) => match &vt.size_type {
            Some(st) => match v {
                FieldValue::Vector(n, items) => {
                    push_scalar(out, *n, st.to_size());
                    let ghost start = out@;
                    let width: usize = vt.data_type.to_size();
                    let mut k: usize = 0;
                    assert(items@.skip(0) =~= items@);
                    while k < items.len()
                        invariant
                            k <= items@.len(),
                            width == type_size(vt.data_type),
                            out@ + encode_items(vt.data_type, items@.skip(k as int)) == start
                                + encode_items(vt.data_type, items@),
                        decreases items@.len() - k,
                    {
                        assert(items@.skip(k as int).drop_first() =~= items@.skip(k + 1));
                        push_scalar(out, items[k], width);
                        k += 1;
                    }
                    assert(items@.skip(k as int) =~= Seq::<u64>::empty());
                    assert(out@ =~= start + encode_items(vt.data_type, items@));
                },
                _ => {},
            },
            None => match v {
                FieldValue::Text(bytes) => {
                    let ghost start = out@;
                    let mut k: usize = 0;
                    while k < bytes.len()
                        invariant
                            k <= bytes@.len(),
                            out@ == start + bytes@.take(k as int),
                        decreases bytes@.len() - k,
                    {
                        out.push(bytes[k]);
                        k += 1;
                        assert(out@ =~= start + bytes@.take(k as int));
                    }
                    out.push(0);
                    assert(out@ =~= start + bytes@.push(0));
                },
                _ => {},
            },
        },
        _ => match v {
            FieldValue::Scalar(x) => {
                push_scalar(out, *x, t.to_size());
            },
            _ => {},
        },
    }
}

/// The payload bytes of fields of the types `types` with the values `values`: the fields in
/// order, each as `encode_field` states.
pub fn encode_payload(types: &Vec<PayloadType>, values: &Vec<FieldValue>) -> (bytes: Vec<u8>)
    requires
        values_encodable(types@, values_view(values@)),
    ensures
        bytes@ == encode_fields(types@, values_view(values@)),
{
    let ghost vv = values_view(values@);
    let mut out: Vec<u8> = Vec::new();
    let mut i: usize = 0;
    assert(types@.skip(0) =~= types@);
    assert(vv.skip(0) =~= vv);
    while i < types.len()
        invariant
            i <= types@.len(),
            types@.len() == values@.len(),
            vv == values_view(values@),
            values_encodable(types@, vv),
            out@ + encode_fields(types@.skip(i as int), vv.skip(i as int)) == encode_fields(
                types@,
                vv,
            ),
        decreases types@.len() - i,
    {
        assert(types@.skip(i as int).drop_first() =~= types@.skip(i + 1));
        assert(vv.skip(i as int).drop_first() =~= vv.skip(i + 1));
        assert(vv[i as int] == values@[i as int]@);
        assert(field_encodable(types@[i as int], vv[i as int]));
        let ghost before = out@;
        encode_field_into(&mut out, &types[i], &values[i]);
        assert(before + encode_fields(types@.skip(i as int), vv.skip(i as int)) =~= out@
            + encode_fields(types@.skip(i + 1), vv.skip(i + 1)));
        i += 1;
    }
    assert(types@.skip(i as int) =~= Seq::<PayloadType>::empty());
    assert(out@ =~= encode_fields(types@, vv));
    out
}

/// Prepends read items to the result of reading the rest.
pub open spec fn join_items(acc: Seq<u64>, used: nat, r: Option<(Seq<u64>, nat)>) -> Option<
    (Seq<u64>, nat),
> {
    match r {
        None => None,
        Some((items, more)) => Some((acc + items, used + more)),
    }
}

/// Prepends read fields to the result of reading the rest.
pub open spec fn join_fields(acc: Seq<FieldValueModel>, r: Option<Seq<FieldValueModel>>) -> Option<
    Seq<FieldValueModel>,
> {
    match r {
        None => None,
        Some(rest) => Some(acc + rest),
    }
}

/// Reads the field of type `t` at `pos`, and the number of bytes it takes.
fn decode_field_at(t: &PayloadType, b: &[u8], pos: usize) -> (r: Option<(FieldValue, usize)>)
    requires
        pos <= b@.len(),
    ensures
        match r {
            Some((v, used)) => decode_field(*t, b@.skip(pos as int)) == Some((v@, used as nat)),
            None => decode_field(*t, b@.skip(pos as int)) is None,
        },
{
    let ghost s = b@.skip(pos as int);
    let len: usize = b.len();
    match t {
        PayloadType::VECTOR(vt) => match &vt.size_type {
            Some(st) => {
                let size_width: usize = st.to_size();
                let item_width: usize = vt.data_type.to_size();
                if size_width == 0 || item_width == 0 {
                    return None;
                }
                let count = read_scalar(st, b, pos);
                if count.is_none() {
                    return None;
                }
                let n: u64 = count.unwrap();
                proof {
                    lemma_decode_scalar_sound(*st, s);
                }
                let start: usize = pos + size_width;
                let ghost s2 = b@.skip(start as int);
                assert(s.skip(size_width as int) =~= s2);
                let mut items: Vec<u64> = Vec::new();
                let mut used: usize = 0;
                let mut k: u64 = 0;
                assert(s2.skip(0) =~= s2);
                proof {
                    match decode_items(vt.data_type, s2, n as nat) {
                        Some((it, m)) => {
                            assert(Seq::<u64>::empty() + it =~= it);
                        },
                        None => {},
                    }
                }
                while k < n
                    invariant
                        len == b@.len(),
                        decode_field(*t, s) == match decode_items(
                            vt.data_type,
                            s2,
                            n as nat,
                        ) {
                            None => None,
                            Some((found, more)) => Some(
                                (FieldValueModel::Vector(n, found), size_width as nat + more),
                            ),
                        },
                        s == b@.skip(pos as int),
                        size_width == type_size(*st),
                        size_width > 0,
                        decode_scalar(*st, s) == Some(n),
                        s.skip(size_width as int) == s2,
                        start <= b@.len(),
                        s2 == b@.skip(start as int),
                        k <= n,
                        items@.len() == k,
                        start + used <= b@.len(),
                        item_width == type_size(vt.data_type),
                        item_width > 0,
                        decode_items(vt.data_type, s2, n as nat) == join_items(
                            items@,
                            used as nat,
                            decode_items(vt.data_type, s2.skip(used as int), (n - k) as nat),
                        ),
                    decreases n - k,
                {
                    let ghost rest = s2.skip(used as int);
                    assert(b@.skip(start + used) =~= rest);
                    let item = read_scalar(&vt.data_type, b, start + used);
                    if item.is_none() {
                        assert(decode_items(vt.data_type, rest, (n - k) as nat) is None);
                        assert(decode_items(vt.data_type, s2, n as nat) is None);
                        return None;
                    }
                    let x: u64 = item.unwrap();
                    proof {
                        lemma_decode_scalar_sound(vt.data_type, rest);
                        assert(rest.skip(item_width as int) =~= s2.skip(used + item_width));
                        let inner = decode_items(
                            vt.data_type,
                            s2.skip(used + item_width),
                            (n - k - 1) as nat,
                        );
                        match inner {
                            Some((more, c)) => {
                                assert(items@ + (seq![x] + more) =~= items@.push(x) + more);
                            },
                            None => {},
                        }
                    }
                    items.push(x);
                    used = used + item_width;
                    k = k + 1;
                }
                assert(decode_items(vt.data_type, s2.skip(used as int), 0) == Some(
                    (Seq::<u64>::empty(), 0nat),
                ));
                assert(items@ + Seq::<u64>::empty() =~= items@);
                Some((FieldValue::Vector(n, items), size_width + used))
            },
            None => {
                let mut k: usize = pos;
                while k < b.len() && b[k] != 0
                    invariant
                        pos <= k <= b@.len(),
                        s == b@.skip(pos as int),
                        zero_index(s, 0) == zero_index(s, (k - pos) as nat),
                    decreases b@.len() - k,
                {
                    assert(s[k - pos] == b@[k as int]);
                    k += 1;
                }
                if k == b.len() {
                    return None;
                }
                assert(s[k - pos] == b@[k as int]);
                let mut bytes: Vec<u8> = Vec::new();
                let mut j: usize = pos;
                while j < k
                    invariant
                        pos <= j <= k,
                        k < b@.len(),
                        bytes@ == b@.subrange(pos as int, j as int),
                    decreases k - j,
                {
                    bytes.push(b[j]);
                    j += 1;
                    assert(bytes@ =~= b@.subrange(pos as int, j as int));
                }
                assert(bytes@ =~= s.take(k - pos));
                Some((FieldValue::Text(bytes), k - pos + 1))
            },
        },
        _ => match read_scalar(t, b, pos) {
            Some(x) => Some((FieldValue::Scalar(x), t.to_size())),
            None => None,
        },
    }
}

/// A payload that does not read back is the bytes of no fields of its types.
proof fn lemma_unreadable_payload(types: Seq<PayloadType>, payload: Seq<u8>)
    requires
        decode_fields(types, payload) is None,
    ensures
        forall|v: Seq<FieldValueModel>|
            values_match(types, v) ==> encode_fields(types, v) != payload,
{
    assert forall|v: Seq<FieldValueModel>| values_match(types, v) implies encode_fields(
        types,
        v,
    ) != payload by {
        if encode_fields(types, v) == payload {
            law_payload_roundtrip(types, v);
        }
    }
}

/// Reads fields of the types `types` from `payload`, which they must use up; `None` when
/// no fields of those types are written as `payload`.
pub fn decode_payload(types: &Vec<PayloadType>, payload: &[u8]) -> (values: Option<
    Vec<FieldValue>,
>)
    ensures
        match values {
            Some(v) => values_match(types@, values_view(v@)) && encode_fields(
                types@,
                values_view(v@),
            ) == payload@,
            None => forall|v: Seq<FieldValueModel>|
                values_match(types@, v) ==> encode_fields(types@, v) != payload@,
        },
        match values {
            Some(v) => decode_fields(types@, payload@) == Some(values_view(v@)),
            None => decode_fields(types@, payload@) is None,
        },
{
    let total: usize = payload.len();
    let mut acc: Vec<FieldValue> = Vec::new();
    let mut pos: usize = 0;
    let mut i: usize = 0;
    assert(types@.skip(0) =~= types@);
    assert(payload@.skip(0) =~= payload@);
    assert(values_view(acc@) + Seq::<FieldValueModel>::empty() =~= values_view(acc@));
    while i < types.len()
        invariant
            total == payload@.len(),
            i <= types@.len(),
            pos <= payload@.len(),
            decode_fields(types@, payload@) == join_fields(
                values_view(acc@),
                decode_fields(types@.skip(i as int), payload@.skip(pos as int)),
            ),
        decreases types@.len() - i,
    {
        let ghost rest_types = types@.skip(i as int);
        let ghost rest = payload@.skip(pos as int);
        assert(rest_types[0] == types@[i as int]);
        assert(rest_types.drop_first() =~= types@.skip(i + 1));
        let field = decode_field_at(&types[i], payload, pos);
        if field.is_none() {
            proof {
                lemma_unreadable_payload(types@, payload@);
            }
            return None;
        }
        let (v, used) = field.unwrap();
        proof {
            lemma_decode_field_sound(types@[i as int], rest);
            assert(rest.skip(used as int) =~= payload@.skip(pos + used));
            let tail = decode_fields(types@.skip(i + 1), payload@.skip(pos + used));
            match tail {
                Some(t) => {
                    assert(values_view(acc@) + (seq![v@] + t) =~= values_view(acc@.push(v)) + t);
                },
                None => {},
            }
            assert(values_view(acc@.push(v)) =~= values_view(acc@).push(v@));
        }
        acc.push(v);
        pos = pos + used;
        i += 1;
    }
    let result = if pos != payload.len() {
        None
    } else {
        proof {
            assert(types@.skip(i as int) =~= Seq::<PayloadType>::empty());
            assert(payload@.skip(pos as int) =~= Seq::<u8>::empty());
            assert(values_view(acc@) + Seq::<FieldValueModel>::empty() =~= values_view(acc@));
        }
        Some(acc)
    };
    proof {
        assert(types@.skip(i as int) =~= Seq::<PayloadType>::empty());
        if result is Some {
            law_decoded_payload_is_exact(types@, payload@);
        } else {
            lemma_unreadable_payload(types@, payload@);
        }
    }
    result
}

} // verus!
