//! Conversion between structured shell values and MessagePack wire values.
//!
//! The two trees are [`StructuredValue`], what a data shell passes along its pipelines, and
//! [`WireValue`], what the MessagePack format can say. [`rmpv_to_nu`] decodes a wire value,
//! [`nu_to_rmpv`] encodes a structured value, and [`laws`] states what holds of the two
//! together. Bytes are the business of the wire codec, which stands outside this library.

pub mod commands;
pub mod compression;
pub mod decimal;
pub mod error;
pub mod float;
pub mod laws;
pub mod text;
pub mod timestamp;
pub mod value;
pub mod wire;

pub use commands::from::{ext_timestamp_to_nu, rmpv_to_nu, unknown_ext_to_nu, FromMsgpack};
pub use commands::into::IntoMsgpack;
pub use commands::main::Main;
pub use commands::to::{nu_to_rmpv, ToMsgpack};
pub use error::{DecodeError, EncodeError};
pub use timestamp::Timestamp;
pub use value::{StructuredValue, Unsupported};
pub use wire::WireValue;
