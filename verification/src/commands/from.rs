//! `from msgpack`: wire values to structured values.
use vstd::prelude::*;
use vstd::slice::slice_to_vec;
use crate::commands::signature::{
    greeting, greeting_model, Category, Example, Flag, FlagArgument, Shape, Signature,
};
use crate::compression::{brotli_decompressed, decompress};
use crate::error::DecodeError;
use crate::float::{widen, widened};
use crate::laws::law_decoded_is_plain_data;
use crate::text::{coerce_string, key_text, lossy_utf8, utf8_decoded, utf8_text, utf8_text_lossy};
use crate::timestamp::{
    instant_in_range, payload_instant, read_be_i64, read_be_u32, read_be_u64, Timestamp,
    TIMESTAMP_TAG,
};
use crate::value::{
    fields_view, insert_field, is_plain_data, lemma_list_view, lemma_record_view, names_unique,
    record_insert, values_view, StructuredValue, ValueModel,
};
use crate::wire::{
    lemma_array_view, lemma_dict_view, pairs_view, wires_view, WireModel, WireValue,
};

verus! {

/// What decoding gives, with the value taken by its view.
pub open spec fn decode_view(r: Result<StructuredValue, DecodeError>) -> Result<
    ValueModel,
    DecodeError,
> {
    match r {
        Ok(value) => Ok(value@),
        Err(e) => Err(e),
    }
}

/// The date that a timestamp payload decodes to, or why it decodes to none.
pub open spec fn decoded_timestamp(payload: Seq<u8>) -> Result<ValueModel, DecodeError> {
    match payload_instant(payload) {
        None => Err(DecodeError::InvalidTimestampLength(payload.len() as usize)),
        Some((seconds, nanos)) => if instant_in_range(seconds, nanos) {
            Ok(ValueModel::Date(seconds, nanos))
        } else {
            Err(DecodeError::TimestampOutOfRange { seconds: seconds as i64, nanos: nanos as u32 })
        },
    }
}

/// The record that stands for an extension value of a type that is not interpreted: its type
/// under `ext_type` and its payload under `data`.
pub open spec fn decoded_unknown_ext(tag: int, payload: Seq<u8>) -> ValueModel {
    ValueModel::Record(
        seq![("ext_type"@, ValueModel::Int(tag)), ("data"@, ValueModel::Binary(payload))],
    )
}

/// What a wire binary decodes to: with `decompress`, the text of what it decompresses to, read
/// leniently, where it decompresses at all; else the bytes as they are.
pub open spec fn decoded_binary(bytes: Seq<u8>, decompress: bool) -> ValueModel {
    if decompress {
        match brotli_decompressed(bytes) {
            Some(plain) => ValueModel::String(lossy_utf8(plain)),
            None => ValueModel::Binary(bytes),
        }
    } else {
        ValueModel::Binary(bytes)
    }
}

/// The structured value that a wire value decodes to, or the first error met on the way
/// through it.
pub open spec fn decoded(wire: WireModel, decompress: bool) -> Result<ValueModel, DecodeError>
    decreases wire, 0nat,
{
    match wire {
        WireModel::Nil => Ok(ValueModel::Null),
        WireModel::Boolean(b) => Ok(ValueModel::Bool(b)),
        WireModel::Integer(n) => if i64::MIN <= n <= i64::MAX {
            Ok(ValueModel::Int(n))
        } else {
            Err(DecodeError::IntegerOverflow)
        },
        WireModel::F32(bits) => Ok(ValueModel::Float(widened(bits))),
        WireModel::F64(bits) => Ok(ValueModel::Float(bits)),
        WireModel::String(bytes) => match utf8_decoded(bytes) {
            Some(text) => Ok(ValueModel::String(text)),
            None => Err(DecodeError::InvalidUtf8),
        },
        WireModel::Binary(bytes) => Ok(decoded_binary(bytes, decompress)),
        WireModel::Array(items) => match decoded_items(items, decompress, items.len()) {
            Ok(values) => Ok(ValueModel::List(values)),
            Err(e) => Err(e),
        },
        WireModel::Dict(pairs) => match decoded_pairs(pairs, decompress, pairs.len()) {
            Ok(fields) => Ok(ValueModel::Record(fields)),
            Err(e) => Err(e),
        },
        WireModel::Ext(tag, payload) => if tag == TIMESTAMP_TAG {
            decoded_timestamp(payload)
        } else {
            Ok(decoded_unknown_ext(tag as int, payload))
        },
    }
}

/// The values that the first `count` items of an array decode to, in order, or the first error
/// among them.
pub open spec fn decoded_items(items: Seq<WireModel>, decompress: bool, count: nat) -> Result<
    Seq<ValueModel>,
    DecodeError,
>
    decreases items, count,
{
    if count == 0 || count > items.len() {
        Ok(Seq::empty())
    } else {
        match decoded_items(items, decompress, (count - 1) as nat) {
            Err(e) => Err(e),
            Ok(values) => match decoded(items[count - 1], decompress) {
                Err(e) => Err(e),
                Ok(value) => Ok(values.push(value)),
            },
        }
    }
}

/// The fields that the first `count` pairs of a map decode to, or the first error among them.
///
/// Each pair gives its key, then the text of the key, then its value; a pair whose key has the
/// text of an earlier one takes that one's place, at the end.
pub open spec fn decoded_pairs(
    pairs: Seq<(WireModel, WireModel)>,
    decompress: bool,
    count: nat,
) -> Result<Seq<(Seq<char>, ValueModel)>, DecodeError>
    decreases pairs, count,
{
    if count == 0 || count > pairs.len() {
        Ok(Seq::empty())
    } else {
        match decoded_pairs(pairs, decompress, (count - 1) as nat) {
            Err(e) => Err(e),
            Ok(fields) => match decoded(pairs[count - 1].0, decompress) {
                Err(e) => Err(e),
                Ok(key) => match key_text(key) {
                    None => Err(DecodeError::KeyCoercionFailed),
                    Some(name) => match decoded(pairs[count - 1].1, decompress) {
                        Err(e) => Err(e),
                        Ok(value) => Ok(record_insert(fields, name, value)),
                    },
                },
            },
        }
    }
}

/// Converts an extension value of a type that is not interpreted into a record of its type and
/// its payload.
pub fn unknown_ext_to_nu(discriminant: i8, data: &[u8]) -> (r: StructuredValue)
    ensures
        r@ == decoded_unknown_ext(discriminant as int, data@),
{
    let mut fields: Vec<(String, StructuredValue)> = Vec::new();
    fields.push(("ext_type".to_owned(), StructuredValue::Int(discriminant as i64)));
    fields.push(("data".to_owned(), StructuredValue::Binary(slice_to_vec(data))));
    proof {
        lemma_record_view(fields);
        assert(fields_view(fields@) =~= decoded_unknown_ext(
            discriminant as int,
            data@,
        )->Record_0);
    }
    StructuredValue::Record(fields)
}

/// Converts the payload of a timestamp extension into a date.
///
/// Fails with `InvalidTimestampLength` on a payload of a length other than 4, 8 and 12, and
/// with `TimestampOutOfRange` on an instant that no date can hold.
pub fn ext_timestamp_to_nu(data: &[u8]) -> (r: Result<StructuredValue, DecodeError>)
    ensures
        decode_view(r) == decoded_timestamp(data@),
{
    let seconds: i64;
    let nanos: u32;
    let length: usize = data.len();
    if length == 4 {
        nanos = 0;
        seconds = read_be_u32(data, 0) as i64;
    } else if length == 8 {
        let word: u64 = read_be_u64(data, 0);
        nanos = (word / 0x4_0000_0000) as u32;
        seconds = (word % 0x4_0000_0000) as i64;
    } else if length == 12 {
        nanos = read_be_u32(data, 0);
        seconds = read_be_i64(data, 4);
    } else {
        return Err(DecodeError::InvalidTimestampLength(length));
    }
    match Timestamp::new(seconds, nanos) {
        Some(instant) => Ok(StructuredValue::Date(instant)),
        None => Err(DecodeError::TimestampOutOfRange { seconds, nanos }),
    }
}

/// The value of a wire binary from the text that came out of decompressing it: a string of
/// that text, or, where nothing came out or nothing was tried, a binary of the bytes as they
/// are. Bytes that do not decompress are no error.
pub fn unpacked_binary(bytes: &[u8], text: Option<String>) -> (r: StructuredValue)
    ensures
        r@ == (match text {
            Some(text) => ValueModel::String(text@),
            None => ValueModel::Binary(bytes@),
        }),
{
    match text {
        Some(text) => StructuredValue::String(text),
        None => StructuredValue::Binary(slice_to_vec(bytes)),
    }
}

/// Converts a wire value into a structured value.
///
/// With `decompress`, a binary that is a brotli stream becomes the string it holds. The first
/// error met, going through the value in order, ends the conversion.
pub fn rmpv_to_nu(value: &WireValue, decompress: bool) -> (r: Result<StructuredValue, DecodeError>)
    ensures
        decode_view(r) == decoded(value@, decompress),
        r matches Ok(plain) ==> is_plain_data(plain@),
    decreases value,
{
    proof {
        law_decoded_is_plain_data(value@, decompress);
    }
    match value {
        WireValue::Nil => Ok(StructuredValue::Null),
        WireValue::Boolean(b) => Ok(StructuredValue::Bool(*b)),
        WireValue::Integer(n) => {
            if -0x8000_0000_0000_0000 <= *n && *n <= 0x7FFF_FFFF_FFFF_FFFF {
                Ok(StructuredValue::Int(*n as i64))
            } else {
                Err(DecodeError::IntegerOverflow)
            }
        },
        WireValue::F32(bits) => Ok(StructuredValue::Float(widen(*bits))),
        WireValue::F64(bits) => Ok(StructuredValue::Float(*bits)),
        WireValue::String(bytes) => {
            match utf8_text(bytes.as_slice()) {
                Some(text) => Ok(StructuredValue::String(text)),
                None => Err(DecodeError::InvalidUtf8),
            }
        },
        WireValue::Binary(bytes) => {
            if decompress {
                let text = match crate::compression::decompress(bytes.as_slice()) {
                    Some(plain) => Some(utf8_text_lossy(plain.as_slice())),
                    None => None,
                };
                Ok(unpacked_binary(bytes.as_slice(), text))
            } else {
                Ok(unpacked_binary(bytes.as_slice(), None))
            }
        },
        WireValue::Array(items) => {
            let mut values: Vec<StructuredValue> = Vec::new();
            let mut at: usize = 0;
            proof {
                lemma_array_view(*items);
                assert(values_view(values@) =~= Seq::empty());
            }
            while at < items.len()
                invariant
                    at <= items.len(),
                    value == WireValue::Array(*items),
                    value@ == WireModel::Array(wires_view(items@)),
                    decoded_items(wires_view(items@), decompress, at as nat) == Ok::<
                        Seq<ValueModel>,
                        DecodeError,
                    >(values_view(values@)),
                decreases items.len() - at,
            {
                let item = rmpv_to_nu(&items[at], decompress);
                match item {
                    Ok(item) => {
                        let ghost before = values_view(values@);
                        let ghost decoded_item = item@;
                        values.push(item);
                        at = at + 1;
                        assert(values_view(values@) =~= before.push(decoded_item));
                    },
                    Err(e) => {
                        proof {
                            lemma_items_error(
                                wires_view(items@),
                                decompress,
                                at as nat + 1,
                                items.len() as nat,
                            );
                        }
                        return Err(e);
                    },
                }
            }
            proof {
                lemma_list_view(values);
            }
            Ok(StructuredValue::List(values))
        },
        WireValue::Dict(pairs) => {
            let mut fields: Vec<(String, StructuredValue)> = Vec::new();
            let mut at: usize = 0;
            proof {
                lemma_dict_view(*pairs);
                assert(fields_view(fields@) =~= Seq::empty());
            }
            while at < pairs.len()
                invariant
                    at <= pairs.len(),
                    value == WireValue::Dict(*pairs),
                    value@ == WireModel::Dict(pairs_view(pairs@)),
                    names_unique(fields_view(fields@)),
                    decoded_pairs(pairs_view(pairs@), decompress, at as nat) == Ok::<
                        Seq<(Seq<char>, ValueModel)>,
                        DecodeError,
                    >(fields_view(fields@)),
                decreases pairs.len() - at,
            {
                proof {
                    lemma_pairs_error(
                        pairs_view(pairs@),
                        decompress,
                        at as nat + 1,
                        pairs.len() as nat,
                    );
                }
                let key = match rmpv_to_nu(&pairs[at].0, decompress) {
                    Ok(key) => key,
                    Err(e) => {
                        return Err(e);
                    },
                };
                let name = match coerce_string(key) {
                    Ok(name) => name,
                    Err(e) => {
                        return Err(e);
                    },
                };
                let field = match rmpv_to_nu(&pairs[at].1, decompress) {
                    Ok(field) => field,
                    Err(e) => {
                        return Err(e);
                    },
                };
                insert_field(&mut fields, name, field);
                at = at + 1;
            }
            proof {
                lemma_record_view(fields);
            }
            Ok(StructuredValue::Record(fields))
        },
        WireValue::Ext(discriminant, data) => {
            if *discriminant == TIMESTAMP_TAG {
                ext_timestamp_to_nu(data.as_slice())
            } else {
                Ok(unknown_ext_to_nu(*discriminant, data.as_slice()))
            }
        },
    }
}

/// The command `from msgpack`.
pub struct FromMsgpack;

impl FromMsgpack {
    /// The name under which the shell calls the command.
    pub fn name(&self) -> (r: &'static str)
        ensures
            r@ == "from msgpack"@,
    {
        "from msgpack"
    }

    /// One line on what the command does.
    pub fn usage(&self) -> (r: &'static str)
        ensures
            r@ == "Convert from msgpack to structured data."@,
    {
        "Convert from msgpack to structured data."
    }

    /// The words under which the shell's help finds the command.
    pub fn search_terms(&self) -> (r: Vec<&'static str>)
        ensures
            r@.len() == 2,
            r@[0]@ == "example"@,
            r@[1]@ == "configuration"@,
    {
        let mut terms: Vec<&'static str> = Vec::new();
        terms.push("example");
        terms.push("configuration");
        terms
    }

    /// The signature: binary in, anything out, and the switch `--brotli`.
    pub fn signature(&self) -> (r: Signature)
        ensures
            r.is_for(
                "from msgpack"@,
                Some(FlagArgument::Nothing),
                "Decompress brotli encoded binary data"@,
                Shape::Binary,
                Shape::Any,
            ),
    {
        Signature {
            name: self.name(),
            category: Category::Formats,
            flag: Some(
                Flag {
                    long: "brotli",
                    short: 'b',
                    argument: FlagArgument::Nothing,
                    description: "Decompress brotli encoded binary data",
                },
            ),
            input: Shape::Binary,
            output: Shape::Any,
        }
    }

    /// The examples that the shell's help shows.
    pub fn examples(&self) -> (r: Vec<Example>)
        ensures
            r@.len() == 3,
            r@[0].shows(
                "0x[81A86772656574696E67AB68656C6C6F20776F726C64] | from msgpack"@,
                "Decode msgpack"@,
                Some(greeting_model("hello world"@)),
            ),
            r@[1].shows(
                "0x[81A86772656574696E67C41D1F2000F88D54B5BF64737B2B90B31CA411563A0358CEB1891C642AEE72] | from msgpack --brotli"@,
                "Decode msgpack with a brotli encoded string"@,
                Some(greeting_model("hello world this is a long string"@)),
            ),
            r@[2].shows("open helloworld.msgpack"@, "Load msgpack from a file"@, None),
    {
        let mut examples: Vec<Example> = Vec::new();
        examples.push(
            Example {
                example: "0x[81A86772656574696E67AB68656C6C6F20776F726C64] | from msgpack",
                description: "Decode msgpack",
                result: Some(greeting("hello world")),
            },
        );
        examples.push(
            Example {
                example: "0x[81A86772656574696E67C41D1F2000F88D54B5BF64737B2B90B31CA411563A0358CEB1891C642AEE72] | from msgpack --brotli",
                description: "Decode msgpack with a brotli encoded string",
                result: Some(greeting("hello world this is a long string")),
            },
        );
        examples.push(
            Example {
                example: "open helloworld.msgpack",
                description: "Load msgpack from a file",
                result: None,
            },
        );
        examples
    }

    /// Runs the command on what the wire codec made of the input bytes: the wire value, or the
    /// codec's complaint, which becomes `MalformedWireData`. `decompress` is the flag `--brotli`.
    pub fn run(&self, input: Result<WireValue, String>, decompress: bool) -> (r: Result<
        StructuredValue,
        DecodeError,
    >)
        ensures
            match input {
                Ok(wire) => decode_view(r) == decoded(wire@, decompress),
                Err(complaint) => r == Err::<StructuredValue, DecodeError>(
                    DecodeError::MalformedWireData(complaint),
                ),
            },
    {
        match input {
            Err(complaint) => Err(DecodeError::MalformedWireData(complaint)),
            Ok(wire) => rmpv_to_nu(&wire, decompress),
        }
    }
}

/// An error among the first items is the error of the whole array.
pub proof fn lemma_items_error(items: Seq<WireModel>, decompress: bool, count: nat, total: nat)
    requires
        0 < count <= total <= items.len(),
    ensures
        decoded_items(items, decompress, count) is Err ==> decoded_items(items, decompress, total)
            == decoded_items(items, decompress, count),
    decreases total - count,
{
    if count < total {
        lemma_items_error(items, decompress, count + 1, total);
    }
}

/// An error among the first pairs is the error of the whole map.
pub proof fn lemma_pairs_error(
    pairs: Seq<(WireModel, WireModel)>,
    decompress: bool,
    count: nat,
    total: nat,
)
    requires
        0 < count <= total <= pairs.len(),
    ensures
        decoded_pairs(pairs, decompress, count) is Err ==> decoded_pairs(pairs, decompress, total)
            == decoded_pairs(pairs, decompress, count),
    decreases total - count,
{
    if count < total {
        lemma_pairs_error(pairs, decompress, count + 1, total);
    }
}

} // verus!
