//! What holds of the two conversions together.
use vstd::prelude::*;
use vstd::utf8::*;
use crate::commands::from::{decoded, decoded_items, decoded_pairs, decoded_timestamp};
use crate::commands::to::{encoded, encoded_fields, encoded_items};
use crate::error::{DecodeError, EncodeError};
use crate::text::key_text;
use crate::timestamp::{
    instant_in_range, lemma_instant_payload, lemma_shortest_payload, payload_instant,
    payload_is_shortest, TIMESTAMP_TAG,
};
use crate::value::{
    has_name, is_plain_data, lemma_without_name, names_unique, record_insert, ValueModel,
};
use crate::wire::WireModel;

verus! {

/// Whether a wire value is in the form that encoding writes: no binary32 float, every integer
/// within 64 signed bits, every string valid UTF-8, every map key a string and no two keys of
/// a map alike, and every extension a timestamp in its shortest layout that a date can hold.
pub open spec fn is_canonical(wire: WireModel) -> bool
    decreases wire,
{
    match wire {
        WireModel::Nil => true,
        WireModel::Boolean(_) => true,
        WireModel::Integer(n) => i64::MIN <= n <= i64::MAX,
        WireModel::F32(_) => false,
        WireModel::F64(_) => true,
        WireModel::String(bytes) => valid_utf8(bytes),
        WireModel::Binary(_) => true,
        WireModel::Array(items) => forall|i: int|
            0 <= i < items.len() ==> is_canonical(#[trigger] items[i]),
        WireModel::Dict(pairs) => {
            &&& forall|i: int|
                0 <= i < pairs.len() ==> {
                    &&& (#[trigger] pairs[i]).0 matches WireModel::String(name)
                    &&& valid_utf8(name)
                    &&& is_canonical(pairs[i].1)
                }
            &&& forall|i: int, j: int|
                0 <= i < j < pairs.len() ==> (#[trigger] pairs[i]).0 != (#[trigger] pairs[j]).0
        },
        WireModel::Ext(tag, payload) => {
            &&& tag == TIMESTAMP_TAG
            &&& payload_is_shortest(payload)
            &&& payload_instant(payload) matches Some((seconds, nanos))
            &&& instant_in_range(seconds, nanos)
        },
    }
}

/// Decoding the first items of an array looks at no others.
pub proof fn lemma_decoded_items_prefix(
    one: Seq<WireModel>,
    other: Seq<WireModel>,
    decompress: bool,
    count: nat,
)
    requires
        count <= one.len(),
        count <= other.len(),
        forall|i: int| 0 <= i < count ==> one[i] == other[i],
    ensures
        decoded_items(one, decompress, count) == decoded_items(other, decompress, count),
    decreases count,
{
    if count > 0 {
        lemma_decoded_items_prefix(one, other, decompress, (count - 1) as nat);
    }
}

/// Decoding the first pairs of a map looks at no others.
pub proof fn lemma_decoded_pairs_prefix(
    one: Seq<(WireModel, WireModel)>,
    other: Seq<(WireModel, WireModel)>,
    decompress: bool,
    count: nat,
)
    requires
        count <= one.len(),
        count <= other.len(),
        forall|i: int| 0 <= i < count ==> one[i] == other[i],
    ensures
        decoded_pairs(one, decompress, count) == decoded_pairs(other, decompress, count),
    decreases count,
{
    if count > 0 {
        lemma_decoded_pairs_prefix(one, other, decompress, (count - 1) as nat);
    }
}

/// Encoding the first items of a list looks at no others.
pub proof fn lemma_encoded_items_prefix(
    one: Seq<ValueModel>,
    other: Seq<ValueModel>,
    quality: Option<i32>,
    count: nat,
)
    requires
        count <= one.len(),
        count <= other.len(),
        forall|i: int| 0 <= i < count ==> one[i] == other[i],
    ensures
        encoded_items(one, quality, count) == encoded_items(other, quality, count),
    decreases count,
{
    if count > 0 {
        lemma_encoded_items_prefix(one, other, quality, (count - 1) as nat);
    }
}

/// Encoding the first fields of a record looks at no others.
pub proof fn lemma_encoded_fields_prefix(
    one: Seq<(Seq<char>, ValueModel)>,
    other: Seq<(Seq<char>, ValueModel)>,
    quality: Option<i32>,
    count: nat,
)
    requires
        count <= one.len(),
        count <= other.len(),
        forall|i: int| 0 <= i < count ==> one[i] == other[i],
    ensures
        encoded_fields(one, quality, count) == encoded_fields(other, quality, count),
    decreases count,
{
    if count > 0 {
        lemma_encoded_fields_prefix(one, other, quality, (count - 1) as nat);
    }
}

/// Plain data that is encoded without compression and decoded without decompression comes back
/// as it was.
pub proof fn law_value_round_trip(value: ValueModel)
    requires
        is_plain_data(value),
    ensures
        encoded(value, None) matches Ok(wire) && decoded(wire, false) == Ok::<
            ValueModel,
            DecodeError,
        >(value),
    decreases value, 0nat,
{
    match value {
        ValueModel::String(text) => {
            encode_utf8_valid_utf8(text);
            encode_utf8_decode_utf8(text);
        },
        ValueModel::List(items) => {
            lemma_items_round_trip(items, items.len());
            assert(items.subrange(0, items.len() as int) =~= items);
        },
        ValueModel::Record(fields) => {
            lemma_fields_round_trip(fields, fields.len());
            assert(fields.subrange(0, fields.len() as int) =~= fields);
        },
        ValueModel::Date(seconds, nanos) => {
            lemma_instant_payload(seconds, nanos);
        },
        _ => {},
    }
}

/// The first items of a list of plain data come back as they were.
proof fn lemma_items_round_trip(items: Seq<ValueModel>, count: nat)
    requires
        count <= items.len(),
        forall|i: int| 0 <= i < items.len() ==> is_plain_data(#[trigger] items[i]),
    ensures
        encoded_items(items, None, count) matches Ok(wires) && wires.len() == count
            && decoded_items(wires, false, count) == Ok::<Seq<ValueModel>, DecodeError>(
            items.subrange(0, count as int),
        ),
    decreases items, count,
{
    if count == 0 {
        assert(items.subrange(0, 0) =~= Seq::empty());
    } else {
        let before = (count - 1) as nat;
        lemma_items_round_trip(items, before);
        law_value_round_trip(items[count - 1]);
        let front = encoded_items(items, None, before)->Ok_0;
        let wire = encoded(items[count - 1], None)->Ok_0;
        let wires = front.push(wire);
        lemma_decoded_items_prefix(wires, front, false, before);
        assert(items.subrange(0, before as int).push(items[count - 1]) =~= items.subrange(
            0,
            count as int,
        ));
    }
}

/// The first fields of a record of plain data come back as they were.
proof fn lemma_fields_round_trip(fields: Seq<(Seq<char>, ValueModel)>, count: nat)
    requires
        count <= fields.len(),
        names_unique(fields),
        forall|i: int| 0 <= i < fields.len() ==> is_plain_data((#[trigger] fields[i]).1),
    ensures
        encoded_fields(fields, None, count) matches Ok(pairs) && pairs.len() == count
            && decoded_pairs(pairs, false, count) == Ok::<
            Seq<(Seq<char>, ValueModel)>,
            DecodeError,
        >(fields.subrange(0, count as int)),
    decreases fields, count,
{
    if count == 0 {
        assert(fields.subrange(0, 0) =~= Seq::empty());
    } else {
        let before = (count - 1) as nat;
        let name = fields[count - 1].0;
        let value = fields[count - 1].1;
        lemma_fields_round_trip(fields, before);
        law_value_round_trip(value);
        encode_utf8_valid_utf8(name);
        encode_utf8_decode_utf8(name);
        let front = encoded_fields(fields, None, before)->Ok_0;
        let wire = encoded(value, None)->Ok_0;
        let pairs = front.push((WireModel::String(encode_utf8(name)), wire));
        lemma_decoded_pairs_prefix(pairs, front, false, before);
        let earlier = fields.subrange(0, before as int);
        assert(!has_name(earlier, name)) by {
            if has_name(earlier, name) {
                let j = choose|j: int| 0 <= j < earlier.len() && (#[trigger] earlier[j]).0 == name;
                assert(fields[j].0 == fields[count - 1].0);
            }
        }
        lemma_without_name(earlier, name);
        assert(earlier.push((name, value)) =~= fields.subrange(0, count as int));
        assert(decoded(pairs[count - 1].0, false) == Ok::<ValueModel, DecodeError>(
            ValueModel::String(name),
        ));
    }
}

/// A wire value in the form that encoding writes, decoded without decompression and encoded
/// without compression, comes back as it was.
pub proof fn law_wire_round_trip(wire: WireModel)
    requires
        is_canonical(wire),
    ensures
        decoded(wire, false) matches Ok(value) && encoded(value, None) == Ok::<
            WireModel,
            EncodeError,
        >(wire),
    decreases wire, 0nat,
{
    match wire {
        WireModel::String(bytes) => {
            decode_utf8_encode_utf8(bytes);
        },
        WireModel::Array(items) => {
            lemma_wires_round_trip(items, items.len());
            assert(items.subrange(0, items.len() as int) =~= items);
        },
        WireModel::Dict(pairs) => {
            lemma_pairs_round_trip(pairs, pairs.len());
            assert(pairs.subrange(0, pairs.len() as int) =~= pairs);
        },
        WireModel::Ext(tag, payload) => {
            lemma_shortest_payload(payload);
        },
        _ => {},
    }
}

/// The first items of a canonical array come back as they were.
proof fn lemma_wires_round_trip(items: Seq<WireModel>, count: nat)
    requires
        count <= items.len(),
        forall|i: int| 0 <= i < items.len() ==> is_canonical(#[trigger] items[i]),
    ensures
        decoded_items(items, false, count) matches Ok(values) && values.len() == count
            && encoded_items(values, None, count) == Ok::<Seq<WireModel>, EncodeError>(
            items.subrange(0, count as int),
        ),
    decreases items, count,
{
    if count == 0 {
        assert(items.subrange(0, 0) =~= Seq::empty());
    } else {
        let before = (count - 1) as nat;
        lemma_wires_round_trip(items, before);
        law_wire_round_trip(items[count - 1]);
        let front = decoded_items(items, false, before)->Ok_0;
        let value = decoded(items[count - 1], false)->Ok_0;
        let values = front.push(value);
        lemma_encoded_items_prefix(values, front, None, before);
        assert(items.subrange(0, before as int).push(items[count - 1]) =~= items.subrange(
            0,
            count as int,
        ));
    }
}

/// The text of the key of a canonical pair.
pub open spec fn pair_name(pair: (WireModel, WireModel)) -> Seq<char> {
    decode_utf8(pair.0->String_0)
}

/// The first pairs of a canonical map come back as they were.
proof fn lemma_pairs_round_trip(pairs: Seq<(WireModel, WireModel)>, count: nat)
    requires
        count <= pairs.len(),
        is_canonical(WireModel::Dict(pairs)),
    ensures
        decoded_pairs(pairs, false, count) matches Ok(fields) && fields.len() == count
            && encoded_fields(fields, None, count) == Ok::<
            Seq<(WireModel, WireModel)>,
            EncodeError,
        >(pairs.subrange(0, count as int))
            && (forall|i: int| 0 <= i < count ==> (#[trigger] fields[i]).0 == pair_name(pairs[i])),
    decreases pairs, count,
{
    if count == 0 {
        assert(pairs.subrange(0, 0) =~= Seq::empty());
    } else {
        let before = (count - 1) as nat;
        let pair = pairs[count - 1];
        lemma_pairs_round_trip(pairs, before);
        law_wire_round_trip(pair.1);
        let bytes = pair.0->String_0;
        decode_utf8_encode_utf8(bytes);
        let name = decode_utf8(bytes);
        let front = decoded_pairs(pairs, false, before)->Ok_0;
        let value = decoded(pair.1, false)->Ok_0;
        assert(decoded(pair.0, false) == Ok::<ValueModel, DecodeError>(ValueModel::String(name)));
        assert(!has_name(front, name)) by {
            if has_name(front, name) {
                let j = choose|j: int| 0 <= j < front.len() && (#[trigger] front[j]).0 == name;
                let other = pairs[j].0->String_0;
                assert(pairs[j].0 matches WireModel::String(_));
                decode_utf8_encode_utf8(other);
                assert(decode_utf8(other) == decode_utf8(bytes));
                assert(other == bytes);
                assert(pairs[j].0 == pairs[count - 1].0);
            }
        }
        lemma_without_name(front, name);
        let fields = front.push((name, value));
        assert(decoded_pairs(pairs, false, count) == Ok::<
            Seq<(Seq<char>, ValueModel)>,
            DecodeError,
        >(fields));
        lemma_encoded_fields_prefix(fields, front, None, before);
        assert(pairs.subrange(0, before as int).push(pair) =~= pairs.subrange(0, count as int));
    }
}

/// Whatever decodes comes back after a trip to the wire: decoding, encoding without
/// compression and decoding again gives what the first decoding gave.
pub proof fn law_decoded_value_round_trip(wire: WireModel, decompress: bool)
    requires
        decoded(wire, decompress) is Ok,
    ensures
        encoded(decoded(wire, decompress)->Ok_0, None) matches Ok(again) && decoded(again, false)
            == Ok::<ValueModel, DecodeError>(decoded(wire, decompress)->Ok_0),
{
    law_decoded_is_plain_data(wire, decompress);
    law_value_round_trip(decoded(wire, decompress)->Ok_0);
}

/// A date is written in four bytes exactly when its seconds fit 32 unsigned bits and it has no
/// nanoseconds, and in twelve bytes otherwise, whatever the compression; a timestamp payload of
/// four bytes always decodes to a date, and a payload is refused for its length exactly when
/// the length is none of 4, 8 and 12.
pub proof fn law_timestamp_layouts(
    seconds: int,
    nanos: int,
    quality: Option<i32>,
    payload: Seq<u8>,
)
    requires
        i64::MIN <= seconds <= i64::MAX,
        0 <= nanos <= u32::MAX,
    ensures
        encoded(ValueModel::Date(seconds, nanos), quality) matches Ok(WireModel::Ext(tag, written))
            && tag == TIMESTAMP_TAG && written.len() == (if 0 <= seconds <= u32::MAX && nanos
            == 0 {
            4nat
        } else {
            12nat
        }),
        payload.len() == 4 ==> decoded_timestamp(payload) is Ok,
        payload.len() == 4 || payload.len() == 8 || payload.len() == 12 <==> !(decoded_timestamp(
            payload,
        ) is Err && decoded_timestamp(payload)->Err_0 is InvalidTimestampLength),
        !(payload.len() == 4 || payload.len() == 8 || payload.len() == 12) ==> decoded_timestamp(
            payload,
        ) == Err::<ValueModel, DecodeError>(
            DecodeError::InvalidTimestampLength(payload.len() as usize),
        ),
{
    lemma_instant_payload(seconds, nanos);
}

/// Whatever decodes is plain data: in every record that comes out the names are unique, and
/// every date that comes out is one that a date can hold.
pub proof fn law_decoded_is_plain_data(wire: WireModel, decompress: bool)
    ensures
        decoded(wire, decompress) matches Ok(value) ==> is_plain_data(value),
    decreases wire, 0nat,
{
    match wire {
        WireModel::Array(items) => {
            lemma_decoded_items_plain(items, decompress, items.len());
            if decoded_items(items, decompress, items.len()) is Ok {
                let values = decoded_items(items, decompress, items.len())->Ok_0;
                assert(is_plain_data(ValueModel::List(values)));
            }
        },
        WireModel::Dict(pairs) => {
            lemma_decoded_pairs_plain(pairs, decompress, pairs.len());
            if decoded_pairs(pairs, decompress, pairs.len()) is Ok {
                let fields = decoded_pairs(pairs, decompress, pairs.len())->Ok_0;
                assert(is_plain_data(ValueModel::Record(fields)));
            }
        },
        WireModel::Ext(tag, payload) => {
            if tag != TIMESTAMP_TAG {
                let fields = seq![
                    ("ext_type"@, ValueModel::Int(tag as int)),
                    ("data"@, ValueModel::Binary(payload)),
                ];
                assert("ext_type"@ != "data"@) by {
                    reveal_strlit("ext_type");
                    reveal_strlit("data");
                    assert("ext_type"@.len() != "data"@.len());
                }
                assert(names_unique(fields));
                assert(is_plain_data(fields[0].1) && is_plain_data(fields[1].1));
            }
        },
        _ => {},
    }
}

/// The first items of an array decode to plain data.
proof fn lemma_decoded_items_plain(items: Seq<WireModel>, decompress: bool, count: nat)
    requires
        count <= items.len(),
    ensures
        decoded_items(items, decompress, count) matches Ok(values) ==> values.len() == count
            && forall|i: int| 0 <= i < values.len() ==> is_plain_data(#[trigger] values[i]),
    decreases items, count,
{
    if count > 0 {
        lemma_decoded_items_plain(items, decompress, (count - 1) as nat);
        law_decoded_is_plain_data(items[count - 1], decompress);
    }
}

/// The first pairs of a map decode to fields of plain data under unique names.
proof fn lemma_decoded_pairs_plain(
    pairs: Seq<(WireModel, WireModel)>,
    decompress: bool,
    count: nat,
)
    requires
        count <= pairs.len(),
    ensures
        decoded_pairs(pairs, decompress, count) matches Ok(fields) ==> names_unique(fields)
            && forall|i: int| 0 <= i < fields.len() ==> is_plain_data((#[trigger] fields[i]).1),
    decreases pairs, count,
{
    if count > 0 {
        let before = (count - 1) as nat;
        lemma_decoded_pairs_plain(pairs, decompress, before);
        law_decoded_is_plain_data(pairs[count - 1].1, decompress);
        if decoded_pairs(pairs, decompress, count) is Ok {
            let front = decoded_pairs(pairs, decompress, before)->Ok_0;
            let name = key_text(decoded(pairs[count - 1].0, decompress)->Ok_0)->Some_0;
            let value = decoded(pairs[count - 1].1, decompress)->Ok_0;
            let kept = crate::value::without_name(front, name);
            let fields = record_insert(front, name, value);
            lemma_without_name(front, name);
            crate::value::lemma_record_insert_unique(front, name, value);
            assert forall|i: int| 0 <= i < fields.len() implies is_plain_data(
                (#[trigger] fields[i]).1,
            ) by {
                if i < kept.len() {
                    assert(front.contains(kept[i]));
                    let j = choose|j: int| 0 <= j < front.len() && front[j] == kept[i];
                    assert(is_plain_data(front[j].1));
                }
            }
        }
    }
}

} // verus!
