//! `into msgpack`: structured values to wire values, as they are.
use vstd::prelude::*;
use crate::commands::signature::{Category, Shape, Signature};
use crate::commands::to::{encode_view, encoded, lemma_plain_encoding_succeeds};
use crate::error::EncodeError;
use crate::value::StructuredValue;
use crate::wire::WireValue;

verus! {

/// Converts a structured value into a wire value, compressing nothing. This never fails.
pub fn nu_to_rmpv(value: StructuredValue) -> (r: Result<WireValue, EncodeError>)
    ensures
        r is Ok,
        encode_view(r) == encoded(value@, None),
{
    proof {
        lemma_plain_encoding_succeeds(value@);
    }
    crate::commands::to::nu_to_rmpv(value, None)
}

/// The command `into msgpack`.
pub struct IntoMsgpack;

impl IntoMsgpack {
    /// The name under which the shell calls the command.
    pub fn name(&self) -> (r: &'static str)
        ensures
            r@ == "into msgpack"@,
    {
        "into msgpack"
    }

    /// One line on what the command does.
    pub fn usage(&self) -> (r: &'static str)
        ensures
            r@ == "Converts data into msgpack."@,
    {
        "Converts data into msgpack."
    }

    /// The words under which the shell's help finds the command.
    pub fn search_terms(&self) -> (r: Vec<&'static str>)
        ensures
            r@.len() == 2,
            r@[0]@ == "msgpack"@,
            r@[1]@ == "plugins"@,
    {
        let mut terms: Vec<&'static str> = Vec::new();
        terms.push("msgpack");
        terms.push("plugins");
        terms
    }

    /// The signature: anything in, a table out, and no flag.
    pub fn signature(&self) -> (r: Signature)
        ensures
            r.is_for("into msgpack"@, None, Seq::empty(), Shape::Any, Shape::Table),
    {
        Signature {
            name: self.name(),
            category: Category::Formats,
            flag: None,
            input: Shape::Any,
            output: Shape::Table,
        }
    }

    /// Runs the command: encodes `input`. What comes out is for the wire codec to write.
    pub fn run(&self, input: StructuredValue) -> (r: Result<WireValue, EncodeError>)
        ensures
            r is Ok,
            encode_view(r) == encoded(input@, None),
    {
        nu_to_rmpv(input)
    }
}

} // verus!
