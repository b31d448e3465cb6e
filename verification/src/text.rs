//! Text and bytes: UTF-8 in both directions, and the text form of a value that stands as a key.
use vstd::prelude::*;
use vstd::utf8::*;
use crate::decimal::decimal_text;
use crate::error::DecodeError;
use crate::timestamp::instant_in_range;
use crate::value::{StructuredValue, ValueModel};

verus! {

/// The text that `String::from_utf8_lossy` makes of `bytes`: each run of bytes that is no
/// UTF-8 gives way to U+FFFD.
pub uninterp spec fn lossy_utf8(bytes: Seq<u8>) -> Seq<char>;

/// The text that the shell's `Value::as_string` gives for the date at `seconds` and `nanos`
/// past the epoch: the date and the time of day in UTC as RFC 3339 writes them, with
/// milliseconds and a closing `Z`.
pub uninterp spec fn date_text(seconds: int, nanos: int) -> Seq<char>;

/// The text of an optional string.
pub open spec fn text_view(text: Option<String>) -> Option<Seq<char>> {
    match text {
        Some(text) => Some(text@),
        None => None,
    }
}

/// The text that `bytes` encode in UTF-8, where they encode any.
pub open spec fn utf8_decoded(bytes: Seq<u8>) -> Option<Seq<char>> {
    if valid_utf8(bytes) {
        Some(decode_utf8(bytes))
    } else {
        None
    }
}

/// Calls `std::str::from_utf8` and copies the text out.
///
/// Trusted: the bytes are accepted exactly when they are valid UTF-8, and the text is then what
/// they encode.
#[verifier::external_body]
pub(crate) fn utf8_text(bytes: &[u8]) -> (r: Option<String>)
    ensures
        text_view(r) == utf8_decoded(bytes@),
{
    match std::str::from_utf8(bytes) {
        Ok(text) => Some(text.to_owned()),
        Err(_) => None,
    }
}

/// Calls `String::from_utf8_lossy` and copies the text out.
///
/// Trusted: the result is the text that [`lossy_utf8`] names, and valid UTF-8 comes out as the
/// text it encodes.
#[verifier::external_body]
pub(crate) fn utf8_text_lossy(bytes: &[u8]) -> (r: String)
    ensures
        r@ == lossy_utf8(bytes@),
        valid_utf8(bytes@) ==> r@ == decode_utf8(bytes@),
{
    String::from_utf8_lossy(bytes).into_owned()
}

/// Calls `nu_protocol::Value::as_string` on an integer, a binary or a date.
///
/// Trusted: an integer has its decimal text; a binary has a text exactly when it is valid
/// UTF-8, and it is then the text that the bytes encode; a date has the text that
/// [`date_text`] names.
#[verifier::external_body]
pub(crate) fn shell_as_string(value: &StructuredValue) -> (r: Option<String>)
    requires
        value is Int || value is Binary || value is Date,
        value matches StructuredValue::Date(instant) ==> instant_in_range(
            instant.seconds as int,
            instant.nanos as int,
        ),
    ensures
        value matches StructuredValue::Int(n) ==> text_view(r) == Some(decimal_text(n as int)),
        value matches StructuredValue::Binary(bytes) ==> text_view(r) == utf8_decoded(bytes@),
        value matches StructuredValue::Date(instant) ==> text_view(r) == Some(
            date_text(instant.seconds as int, instant.nanos as int),
        ),
{
    let span = nu_protocol::Span::unknown();
    let shell = match value {
        StructuredValue::Int(n) => nu_protocol::Value::int(*n, span),
        StructuredValue::Binary(bytes) => nu_protocol::Value::binary(bytes.clone(), span),
        StructuredValue::Date(at) => nu_protocol::Value::Date {
            val: chrono::DateTime::from_timestamp(at.seconds, at.nanos)?.fixed_offset(),
            span,
        },
        _ => return None,
    };
    shell.as_string().ok()
}

/// The text form under which a value stands as the key of a record, where it has one.
///
/// A string is its own text. An integer has its decimal text. A binary has the text that its
/// bytes encode, where they are UTF-8. A date that a date can hold has the text that the shell
/// gives it. Nothing else has a text form here: not null, a boolean, a list or a record, to
/// which the shell gives none, nor a float, whose text takes floating-point arithmetic.
pub open spec fn key_text(key: ValueModel) -> Option<Seq<char>> {
    match key {
        ValueModel::String(text) => Some(text),
        ValueModel::Int(n) => Some(decimal_text(n)),
        ValueModel::Binary(bytes) => utf8_decoded(bytes),
        ValueModel::Date(seconds, nanos) => if instant_in_range(seconds, nanos) {
            Some(date_text(seconds, nanos))
        } else {
            None
        },
        _ => None,
    }
}

/// The name of a record field from the text that the shell gave for its key: that text, or
/// `KeyCoercionFailed` where the shell gave none.
pub fn key_from_text(text: Option<String>) -> (r: Result<String, DecodeError>)
    ensures
        r == (match text {
            Some(name) => Ok::<String, DecodeError>(name),
            None => Err::<String, DecodeError>(DecodeError::KeyCoercionFailed),
        }),
{
    match text {
        Some(name) => Ok(name),
        None => Err(DecodeError::KeyCoercionFailed),
    }
}

/// Turns a value into the name of a record field, or fails with `KeyCoercionFailed` where the
/// value has no text form.
pub fn coerce_string(value: StructuredValue) -> (r: Result<String, DecodeError>)
    ensures
        match key_text(value@) {
            Some(text) => r matches Ok(name) && name@ == text,
            None => r == Err::<String, DecodeError>(DecodeError::KeyCoercionFailed),
        },
{
    match value {
        StructuredValue::String(text) => Ok(text),
        StructuredValue::Int(n) => key_from_text(shell_as_string(&StructuredValue::Int(n))),
        StructuredValue::Binary(bytes) => key_from_text(
            shell_as_string(&StructuredValue::Binary(bytes)),
        ),
        StructuredValue::Date(instant) => {
            if instant.in_range() {
                key_from_text(shell_as_string(&StructuredValue::Date(instant)))
            } else {
                Err(DecodeError::KeyCoercionFailed)
            }
        },
        _ => Err(DecodeError::KeyCoercionFailed),
    }
}

} // verus!
