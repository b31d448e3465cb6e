//! The ways in which a conversion can fail.
use vstd::prelude::*;
use vstd::string::StringExecFns;
use crate::decimal::{decimal_string, decimal_text, natural_string, natural_text};

verus! {

/// Why a wire value could not be turned into a structured value.
#[derive(Debug, PartialEq, Eq)]
pub enum DecodeError {
    /// The input bytes are not MessagePack; the text is the codec's complaint.
    MalformedWireData(String),
    /// A wire integer lies outside the signed 64-bit range.
    IntegerOverflow,
    /// A wire string is not valid UTF-8.
    InvalidUtf8,
    /// A timestamp extension has a payload of this length, which is none of 4, 8 and 12.
    InvalidTimestampLength(usize),
    /// A timestamp extension names an instant that no date can hold.
    TimestampOutOfRange { seconds: i64, nanos: u32 },
    /// A map key has no text form.
    KeyCoercionFailed,
}

/// Why a structured value could not be turned into a wire value.
#[derive(Debug, PartialEq, Eq)]
pub enum EncodeError {
    /// The compressor refused a string.
    CompressionFailed,
}

impl DecodeError {
    /// The short label of each kind of error, as a view.
    pub open spec fn label_spec(self) -> Seq<char> {
        match self {
            DecodeError::MalformedWireData(_) => "Invalid msgpack"@,
            DecodeError::IntegerOverflow => "Integer overflow"@,
            DecodeError::InvalidUtf8 => "Invalid UTF-8"@,
            DecodeError::InvalidTimestampLength(_) => "Invalid timestamp length"@,
            DecodeError::TimestampOutOfRange { .. } => "Timestamp out of range"@,
            DecodeError::KeyCoercionFailed => "Can't convert to string"@,
        }
    }

    /// The short label under which a host shows this error.
    pub fn label(&self) -> (r: &'static str)
        ensures
            r@ == self.label_spec(),
    {
        match self {
            DecodeError::MalformedWireData(_) => "Invalid msgpack",
            DecodeError::IntegerOverflow => "Integer overflow",
            DecodeError::InvalidUtf8 => "Invalid UTF-8",
            DecodeError::InvalidTimestampLength(_) => "Invalid timestamp length",
            DecodeError::TimestampOutOfRange { .. } => "Timestamp out of range",
            DecodeError::KeyCoercionFailed => "Can't convert to string",
        }
    }
}

impl DecodeError {
    /// The sentence that tells a user what went wrong, as a view.
    pub open spec fn message_spec(self) -> Seq<char> {
        match self {
            DecodeError::MalformedWireData(complaint) => complaint@,
            DecodeError::IntegerOverflow =>
                "Encountered a msgpack integer bigger than what nushell supports (i64::MAX)."@,
            DecodeError::InvalidUtf8 => "Encountered a msgpack string that was not valid UTF-8"@,
            DecodeError::InvalidTimestampLength(length) =>
                "Parsed ext type -1 (timestamp) with invalid length "@ + natural_text(
                    length as nat,
                ),
            DecodeError::TimestampOutOfRange { seconds, nanos } => "Timestamp value (seconds="@
                + decimal_text(seconds as int) + ", nanos="@ + natural_text(nanos as nat)
                + ") is out of range"@,
            DecodeError::KeyCoercionFailed => "Can't convert to string."@,
        }
    }

    /// The sentence that tells a user what went wrong.
    pub fn message(&self) -> (r: String)
        ensures
            r@ == self.message_spec(),
    {
        match self {
            DecodeError::MalformedWireData(complaint) => complaint.clone(),
            DecodeError::IntegerOverflow => String::from_str(
                "Encountered a msgpack integer bigger than what nushell supports (i64::MAX).",
            ),
            DecodeError::InvalidUtf8 => String::from_str(
                "Encountered a msgpack string that was not valid UTF-8",
            ),
            DecodeError::InvalidTimestampLength(length) => {
                let mut text = String::from_str(
                    "Parsed ext type -1 (timestamp) with invalid length ",
                );
                text.append(natural_string(*length as u64).as_str());
                text
            },
            DecodeError::TimestampOutOfRange { seconds, nanos } => {
                let mut text = String::from_str("Timestamp value (seconds=");
                text.append(decimal_string(*seconds).as_str());
                text.append(", nanos=");
                text.append(natural_string(*nanos as u64).as_str());
                text.append(") is out of range");
                text
            },
            DecodeError::KeyCoercionFailed => String::from_str("Can't convert to string."),
        }
    }
}

impl EncodeError {
    /// The sentence that tells a user what went wrong, as a view.
    pub open spec fn message_spec(self) -> Seq<char> {
        match self {
            EncodeError::CompressionFailed => "The compressor could not take the string."@,
        }
    }

    /// The sentence that tells a user what went wrong.
    pub fn message(&self) -> (r: String)
        ensures
            r@ == self.message_spec(),
    {
        match self {
            EncodeError::CompressionFailed => String::from_str(
                "The compressor could not take the string.",
            ),
        }
    }

    /// The short label of each kind of error, as a view.
    pub open spec fn label_spec(self) -> Seq<char> {
        match self {
            EncodeError::CompressionFailed => "Error compressing string with Brotli"@,
        }
    }

    /// The short label under which a host shows this error.
    pub fn label(&self) -> (r: &'static str)
        ensures
            r@ == self.label_spec(),
    {
        match self {
            EncodeError::CompressionFailed => "Error compressing string with Brotli",
        }
    }
}

} // verus!
