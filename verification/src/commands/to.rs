//! `to msgpack`: structured values to wire values, with strings compressed on request.
use vstd::prelude::*;
use vstd::utf8::*;
use crate::commands::signature::{
    greeting, greeting_model, Category, Example, Flag, FlagArgument, Shape, Signature,
};
use crate::compression::{brotli_compressed, compress};
use crate::error::EncodeError;
use crate::timestamp::{instant_payload, timestamp_payload, TIMESTAMP_TAG};
use crate::value::{
    fields_view, lemma_list_view, lemma_record_view, values_view, StructuredValue, ValueModel,
};
use crate::wire::{
    lemma_array_view, lemma_dict_view, pairs_view, wires_view, WireModel, WireValue,
};

verus! {

/// What encoding gives, with the wire value taken by its view.
pub open spec fn encode_view(r: Result<WireValue, EncodeError>) -> Result<WireModel, EncodeError> {
    match r {
        Ok(wire) => Ok(wire@),
        Err(e) => Err(e),
    }
}

/// What a string encodes to: a wire string of its UTF-8 bytes, or, at a compression quality,
/// a wire binary of those bytes compressed.
pub open spec fn encoded_string(text: Seq<char>, quality: Option<i32>) -> Result<
    WireModel,
    EncodeError,
> {
    match quality {
        None => Ok(WireModel::String(encode_utf8(text))),
        Some(quality) => match brotli_compressed(encode_utf8(text), quality as int) {
            Some(packed) => Ok(WireModel::Binary(packed)),
            None => Err(EncodeError::CompressionFailed),
        },
    }
}

/// The wire value that a structured value encodes to, or the error of the first string that
/// would not compress.
pub open spec fn encoded(value: ValueModel, quality: Option<i32>) -> Result<WireModel, EncodeError>
    decreases value, 0nat,
{
    match value {
        ValueModel::Null => Ok(WireModel::Nil),
        ValueModel::Bool(b) => Ok(WireModel::Boolean(b)),
        ValueModel::Int(n) => Ok(WireModel::Integer(n)),
        ValueModel::Float(bits) => Ok(WireModel::F64(bits)),
        ValueModel::String(text) => encoded_string(text, quality),
        ValueModel::Binary(bytes) => Ok(WireModel::Binary(bytes)),
        ValueModel::List(items) => match encoded_items(items, quality, items.len()) {
            Ok(wires) => Ok(WireModel::Array(wires)),
            Err(e) => Err(e),
        },
        ValueModel::Record(fields) => match encoded_fields(fields, quality, fields.len()) {
            Ok(pairs) => Ok(WireModel::Dict(pairs)),
            Err(e) => Err(e),
        },
        ValueModel::Date(seconds, nanos) => Ok(
            WireModel::Ext(TIMESTAMP_TAG, instant_payload(seconds, nanos)),
        ),
        ValueModel::Filesize(n) => Ok(WireModel::Integer(n)),
        ValueModel::Duration(n) => Ok(WireModel::Integer(n)),
        ValueModel::Range(items) => match encoded_items(items, quality, items.len()) {
            Ok(wires) => Ok(WireModel::Array(wires)),
            Err(e) => Err(e),
        },
        ValueModel::Unsupported(_) => Ok(WireModel::Nil),
    }
}

/// The wire values that the first `count` items of a list encode to, in order, or the first
/// error among them.
pub open spec fn encoded_items(items: Seq<ValueModel>, quality: Option<i32>, count: nat) -> Result<
    Seq<WireModel>,
    EncodeError,
>
    decreases items, count,
{
    if count == 0 || count > items.len() {
        Ok(Seq::empty())
    } else {
        match encoded_items(items, quality, (count - 1) as nat) {
            Err(e) => Err(e),
            Ok(wires) => match encoded(items[count - 1], quality) {
                Err(e) => Err(e),
                Ok(wire) => Ok(wires.push(wire)),
            },
        }
    }
}

/// The pairs that the first `count` fields of a record encode to, in order, or the first error
/// among them. A name is a wire string and is never compressed.
pub open spec fn encoded_fields(
    fields: Seq<(Seq<char>, ValueModel)>,
    quality: Option<i32>,
    count: nat,
) -> Result<Seq<(WireModel, WireModel)>, EncodeError>
    decreases fields, count,
{
    if count == 0 || count > fields.len() {
        Ok(Seq::empty())
    } else {
        match encoded_fields(fields, quality, (count - 1) as nat) {
            Err(e) => Err(e),
            Ok(pairs) => match encoded(fields[count - 1].1, quality) {
                Err(e) => Err(e),
                Ok(wire) => Ok(
                    pairs.push((WireModel::String(encode_utf8(fields[count - 1].0)), wire)),
                ),
            },
        }
    }
}

/// The wire value of a string from what the compressor made of its bytes: a binary of the
/// compressed bytes, or `CompressionFailed` where the compressor gave none.
pub fn packed_string(packed: Option<Vec<u8>>) -> (r: Result<WireValue, EncodeError>)
    ensures
        r == (match packed {
            Some(bytes) => Ok::<WireValue, EncodeError>(WireValue::Binary(bytes)),
            None => Err::<WireValue, EncodeError>(EncodeError::CompressionFailed),
        }),
{
    match packed {
        Some(bytes) => Ok(WireValue::Binary(bytes)),
        None => Err(EncodeError::CompressionFailed),
    }
}

/// Converts a structured value into a wire value.
///
/// With a compression quality, each string becomes a binary of its bytes compressed by brotli
/// at that quality, and a string that does not compress ends the conversion.
pub fn nu_to_rmpv(value: StructuredValue, compression: Option<i32>) -> (r: Result<
    WireValue,
    EncodeError,
>)
    ensures
        encode_view(r) == encoded(value@, compression),
    decreases value, 1nat,
{
    match value {
        StructuredValue::Bool(val) => Ok(WireValue::Boolean(val)),
        StructuredValue::Int(val) => Ok(WireValue::Integer(val as i128)),
        StructuredValue::Float(val) => Ok(WireValue::F64(val)),
        StructuredValue::String(val) => {
            let bytes = val.as_str().as_bytes_vec();
            match compression {
                Some(quality) => packed_string(compress(bytes.as_slice(), quality)),
                None => Ok(WireValue::String(bytes)),
            }
        },
        StructuredValue::Binary(val) => Ok(WireValue::Binary(val)),
        StructuredValue::Null => Ok(WireValue::Nil),
        StructuredValue::List(vals) => {
            proof {
                lemma_list_view(vals);
            }
            match encode_items(vals, compression, Ghost(value)) {
                Ok(wires) => Ok(WireValue::Array(wires)),
                Err(e) => Err(e),
            }
        },
        StructuredValue::Record(record) => {
            let ghost fields = fields_view(record@);
            proof {
                lemma_record_view(record);
            }
            let mut pairs: Vec<(WireValue, WireValue)> = Vec::new();
            assert(pairs_view(pairs@) =~= Seq::empty());
            for field in it: record.into_iter()
                invariant
                    it.seq() == record@,
                    fields == fields_view(record@),
                    value == StructuredValue::Record(record),
                    value@ == ValueModel::Record(fields),
                    encoded_fields(fields, compression, it.index() as nat) == Ok::<
                        Seq<(WireModel, WireModel)>,
                        EncodeError,
                    >(pairs_view(pairs@)),
            {
                proof {
                    lemma_fields_error(fields, compression, it.index() as nat + 1, fields.len());
                }
                assert(field == record@[it.index() as int]);
                assert(decreases_to!(record => record@[it.index() as int]));
                let (name, val) = field;
                let key = WireValue::String(name.as_str().as_bytes_vec());
                match nu_to_rmpv(val, compression) {
                    Ok(wire) => {
                        let ghost before = pairs_view(pairs@);
                        let ghost pair = (key@, wire@);
                        pairs.push((key, wire));
                        assert(pairs_view(pairs@) =~= before.push(pair));
                    },
                    Err(e) => {
                        return Err(e);
                    },
                }
            }
            proof {
                lemma_dict_view(pairs);
            }
            Ok(WireValue::Dict(pairs))
        },
        StructuredValue::Filesize(val) => Ok(WireValue::Integer(val as i128)),
        StructuredValue::Duration(val) => Ok(WireValue::Integer(val as i128)),
        StructuredValue::Date(val) => Ok(WireValue::Ext(TIMESTAMP_TAG, timestamp_payload(val))),
        StructuredValue::Range(vals) => {
            proof {
                lemma_list_view(vals);
            }
            match encode_items(vals, compression, Ghost(value)) {
                Ok(wires) => Ok(WireValue::Array(wires)),
                Err(e) => Err(e),
            }
        },
        StructuredValue::Unsupported(_) => Ok(WireValue::Nil),
    }
}

/// The quality that the flag `--brotli` asks for: its value, cut to 32 bits.
pub open spec fn flag_quality(brotli: Option<i64>) -> Option<i32> {
    match brotli {
        Some(level) => Some(level as i32),
        None => None,
    }
}

/// The bytes that the first example gives: the record `{ greeting: "hello world" }` on the wire.
pub open spec fn plain_example_bytes() -> Seq<u8> {
    seq![
        0x81u8, 0xA8u8, 0x67u8, 0x72u8, 0x65u8, 0x65u8, 0x74u8, 0x69u8, 0x6Eu8, 0x67u8, 0xABu8,
        0x68u8, 0x65u8, 0x6Cu8, 0x6Cu8, 0x6Fu8, 0x20u8, 0x77u8, 0x6Fu8, 0x72u8, 0x6Cu8, 0x64u8,
    ]
}

/// The bytes that the second example gives: the same record with a longer greeting, which is
/// compressed at quality 9.
pub open spec fn packed_example_bytes() -> Seq<u8> {
    seq![
        0x81u8, 0xA8u8, 0x67u8, 0x72u8, 0x65u8, 0x65u8, 0x74u8, 0x69u8, 0x6Eu8, 0x67u8, 0xC4u8,
        0x1Eu8, 0x1Bu8, 0x20u8, 0x00u8, 0x00u8, 0xA4u8, 0x40u8, 0xC2u8, 0x60u8, 0x22u8, 0x07u8,
        0x0Eu8, 0x51u8, 0xEBu8, 0x74u8, 0x70u8, 0xC8u8, 0xC9u8, 0xC1u8, 0x0Eu8, 0x49u8, 0x4Bu8,
        0x63u8, 0xD3u8, 0xB1u8, 0x3Cu8, 0x46u8, 0xC4u8, 0x4Bu8, 0x4Eu8, 0x69u8,
    ]
}

/// The command `to msgpack`.
pub struct ToMsgpack;

impl ToMsgpack {
    /// The name under which the shell calls the command.
    pub fn name(&self) -> (r: &'static str)
        ensures
            r@ == "to msgpack"@,
    {
        "to msgpack"
    }

    /// One line on what the command does.
    pub fn usage(&self) -> (r: &'static str)
        ensures
            r@ == "Converts data to msgpack."@,
    {
        "Converts data to msgpack."
    }

    /// The words under which the shell's help finds the command.
    pub fn search_terms(&self) -> (r: Vec<&'static str>)
        ensures
            r@.len() == 2,
            r@[0]@ == "msgpack"@,
            r@[1]@ == "plugins"@,
    {
        let mut terms: Vec<&'static str> = Vec::new();
        terms.push("msgpack");
        terms.push("plugins");
        terms
    }

    /// The signature: anything in, binary out, and the flag `--brotli` with its quality.
    pub fn signature(&self) -> (r: Signature)
        ensures
            r.is_for(
                "to msgpack"@,
                Some(FlagArgument::Int),
                "Brotli Encoder Mode (0 - 11)"@,
                Shape::Any,
                Shape::Binary,
            ),
    {
        Signature {
            name: self.name(),
            category: Category::Formats,
            flag: Some(
                Flag {
                    long: "brotli",
                    short: 'b',
                    argument: FlagArgument::Int,
                    description: "Brotli Encoder Mode (0 - 11)",
                },
            ),
            input: Shape::Any,
            output: Shape::Binary,
        }
    }

    /// The examples that the shell's help shows.
    pub fn examples(&self) -> (r: Vec<Example>)
        ensures
            r@.len() == 4,
            r@[0].shows(
                "{ greeting: 'hello world' } | to msgpack"@,
                "Encode msgpack"@,
                Some(ValueModel::Binary(plain_example_bytes())),
            ),
            r@[1].shows(
                "{ greeting: 'hello world this is a long string' } | to msgpack --brotli 9"@,
                "Encode msgpack and compress strings with brotli (level 9)"@,
                Some(ValueModel::Binary(packed_example_bytes())),
            ),
            r@[2].shows(
                "{ greeting: 'hello world this is a long string' } | to msgpack --brotli 9 | from msgpack --brotli"@,
                "Encode and decode msgpack with brotli compressed strings"@,
                Some(greeting_model("hello world this is a long string"@)),
            ),
            r@[3].shows(
                "{ hello: world } | save --raw helloworld.msgpack"@,
                "Save msgpack to a file"@,
                None,
            ),
    {
        let plain: Vec<u8> = vec![
            0x81, 0xA8, 0x67, 0x72, 0x65, 0x65, 0x74, 0x69, 0x6E, 0x67, 0xAB, 0x68, 0x65, 0x6C,
            0x6C, 0x6F, 0x20, 0x77, 0x6F, 0x72, 0x6C, 0x64,
        ];
        let packed: Vec<u8> = vec![
            0x81, 0xA8, 0x67, 0x72, 0x65, 0x65, 0x74, 0x69, 0x6E, 0x67, 0xC4, 0x1E, 0x1B, 0x20,
            0x00, 0x00, 0xA4, 0x40, 0xC2, 0x60, 0x22, 0x07, 0x0E, 0x51, 0xEB, 0x74, 0x70, 0xC8,
            0xC9, 0xC1, 0x0E, 0x49, 0x4B, 0x63, 0xD3, 0xB1, 0x3C, 0x46, 0xC4, 0x4B, 0x4E, 0x69,
        ];
        assert(plain@ =~= plain_example_bytes());
        assert(packed@ =~= packed_example_bytes());
        let mut examples: Vec<Example> = Vec::new();
        examples.push(
            Example {
                example: "{ greeting: 'hello world' } | to msgpack",
                description: "Encode msgpack",
                result: Some(StructuredValue::Binary(plain)),
            },
        );
        examples.push(
            Example {
                example: "{ greeting: 'hello world this is a long string' } | to msgpack --brotli 9",
                description: "Encode msgpack and compress strings with brotli (level 9)",
                result: Some(StructuredValue::Binary(packed)),
            },
        );
        examples.push(
            Example {
                example: "{ greeting: 'hello world this is a long string' } | to msgpack --brotli 9 | from msgpack --brotli",
                description: "Encode and decode msgpack with brotli compressed strings",
                result: Some(greeting("hello world this is a long string")),
            },
        );
        examples.push(
            Example {
                example: "{ hello: world } | save --raw helloworld.msgpack",
                description: "Save msgpack to a file",
                result: None,
            },
        );
        examples
    }

    /// Runs the command: encodes `input`, with the strings compressed where the flag `--brotli`
    /// is given. What comes out is for the wire codec to write.
    pub fn run(&self, input: StructuredValue, brotli: Option<i64>) -> (r: Result<
        WireValue,
        EncodeError,
    >)
        ensures
            encode_view(r) == encoded(input@, flag_quality(brotli)),
    {
        let compression: Option<i32> = match brotli {
            Some(level) => Some(#[verifier::truncate] (level as i32)),
            None => None,
        };
        nu_to_rmpv(input, compression)
    }
}

/// Encoding without compression never fails.
pub proof fn lemma_plain_encoding_succeeds(value: ValueModel)
    ensures
        encoded(value, None) is Ok,
    decreases value, 0nat,
{
    match value {
        ValueModel::List(items) => lemma_plain_items_succeed(items, items.len()),
        ValueModel::Range(items) => lemma_plain_items_succeed(items, items.len()),
        ValueModel::Record(fields) => lemma_plain_fields_succeed(fields, fields.len()),
        _ => {},
    }
}

/// Encoding the first items of a list without compression never fails.
proof fn lemma_plain_items_succeed(items: Seq<ValueModel>, count: nat)
    requires
        count <= items.len(),
    ensures
        encoded_items(items, None, count) is Ok,
    decreases items, count,
{
    if count > 0 {
        lemma_plain_items_succeed(items, (count - 1) as nat);
        lemma_plain_encoding_succeeds(items[count - 1]);
    }
}

/// Encoding the first fields of a record without compression never fails.
proof fn lemma_plain_fields_succeed(fields: Seq<(Seq<char>, ValueModel)>, count: nat)
    requires
        count <= fields.len(),
    ensures
        encoded_fields(fields, None, count) is Ok,
    decreases fields, count,
{
    if count > 0 {
        lemma_plain_fields_succeed(fields, (count - 1) as nat);
        lemma_plain_encoding_succeeds(fields[count - 1].1);
    }
}

/// Converts the items of a list or of a range, in order, up to the first that fails.
fn encode_items(vals: Vec<StructuredValue>, compression: Option<i32>, Ghost(whole): Ghost<
    StructuredValue,
>) -> (r: Result<Vec<WireValue>, EncodeError>)
    requires
        whole == StructuredValue::List(vals) || whole == StructuredValue::Range(vals),
    ensures
        match r {
            Ok(wires) => WireValue::Array(wires)@ == WireModel::Array(wires_view(wires@))
                && encoded_items(values_view(vals@), compression, vals@.len()) == Ok::<
                Seq<WireModel>,
                EncodeError,
            >(wires_view(wires@)),
            Err(e) => encoded_items(values_view(vals@), compression, vals@.len()) == Err::<
                Seq<WireModel>,
                EncodeError,
            >(e),
        },
    decreases whole, 0nat,
{
    let ghost items = values_view(vals@);
    let mut wires: Vec<WireValue> = Vec::new();
    assert(wires_view(wires@) =~= Seq::empty());
    for val in it: vals.into_iter()
        invariant
            it.seq() == vals@,
            items == values_view(vals@),
            whole == StructuredValue::List(vals) || whole == StructuredValue::Range(vals),
            encoded_items(items, compression, it.index() as nat) == Ok::<
                Seq<WireModel>,
                EncodeError,
            >(wires_view(wires@)),
    {
        proof {
            lemma_items_error(items, compression, it.index() as nat + 1, items.len());
        }
        assert(decreases_to!(whole => val)) by {
            assert(val == vals@[it.index() as int]);
            assert(decreases_to!(vals => vals@[it.index() as int]));
            if whole == StructuredValue::List(vals) {
                assert(decreases_to!(whole => whole->List_0));
            } else {
                assert(decreases_to!(whole => whole->Range_0));
            }
        }
        match nu_to_rmpv(val, compression) {
            Ok(wire) => {
                let ghost before = wires_view(wires@);
                let ghost encoded_item = wire@;
                wires.push(wire);
                assert(wires_view(wires@) =~= before.push(encoded_item));
            },
            Err(e) => {
                return Err(e);
            },
        }
    }
    proof {
        lemma_array_view(wires);
    }
    Ok(wires)
}

/// An error among the first items is the error of the whole list.
pub proof fn lemma_items_error(items: Seq<ValueModel>, quality: Option<i32>, count: nat, total: nat)
    requires
        0 < count <= total <= items.len(),
    ensures
        encoded_items(items, quality, count) is Err ==> encoded_items(items, quality, total)
            == encoded_items(items, quality, count),
    decreases total - count,
{
    if count < total {
        lemma_items_error(items, quality, count + 1, total);
    }
}

/// An error among the first fields is the error of the whole record.
pub proof fn lemma_fields_error(
    fields: Seq<(Seq<char>, ValueModel)>,
    quality: Option<i32>,
    count: nat,
    total: nat,
)
    requires
        0 < count <= total <= fields.len(),
    ensures
        encoded_fields(fields, quality, count) is Err ==> encoded_fields(fields, quality, total)
            == encoded_fields(fields, quality, count),
    decreases total - count,
{
    if count < total {
        lemma_fields_error(fields, quality, count + 1, total);
    }
}

} // verus!
