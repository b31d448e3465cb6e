//! How a command presents itself to the shell: its flags, its types and its examples.
use vstd::prelude::*;
use vstd::string::StringExecFns;
use crate::value::{lemma_record_view, StructuredValue, ValueModel};

verus! {

/// The group under which the shell lists a command.
#[derive(Clone, Copy, Debug, PartialEq, Eq, Structural)]
pub enum Category {
    Formats,
}

/// The type of what a command takes or gives.
#[derive(Clone, Copy, Debug, PartialEq, Eq, Structural)]
pub enum Shape {
    Any,
    Binary,
    Table,
}

/// What a flag takes after its name.
#[derive(Clone, Copy, Debug, PartialEq, Eq, Structural)]
pub enum FlagArgument {
    /// Nothing: the flag is a switch.
    Nothing,
    /// An integer.
    Int,
}

/// A flag of a command.
#[derive(Clone, Copy, Debug, PartialEq, Eq)]
pub struct Flag {
    pub long: &'static str,
    pub short: char,
    pub argument: FlagArgument,
    pub description: &'static str,
}

/// The signature of a command.
#[derive(Clone, Copy, Debug, PartialEq, Eq)]
pub struct Signature {
    pub name: &'static str,
    pub category: Category,
    pub flag: Option<Flag>,
    pub input: Shape,
    pub output: Shape,
}

/// An example of a command at work: the line to type, what it shows, and what it gives where
/// that can be told beforehand.
#[derive(Debug, PartialEq, Eq)]
pub struct Example {
    pub example: &'static str,
    pub description: &'static str,
    pub result: Option<StructuredValue>,
}

impl Signature {
    /// Whether the signature is that of the command `name` in the category of formats, with
    /// the flag `brotli` and the types given, or with no flag where `argument` is `None`.
    pub open spec fn is_for(
        self,
        name: Seq<char>,
        argument: Option<FlagArgument>,
        description: Seq<char>,
        input: Shape,
        output: Shape,
    ) -> bool {
        &&& self.name@ == name
        &&& self.category == Category::Formats
        &&& self.input == input
        &&& self.output == output
        &&& match argument {
            None => self.flag is None,
            Some(argument) => {
                &&& self.flag matches Some(flag)
                &&& flag.long@ == "brotli"@
                &&& flag.short == 'b'
                &&& flag.argument == argument
                &&& flag.description@ == description
            },
        }
    }
}

impl Example {
    /// Whether the example has this line, this description and this result.
    pub open spec fn shows(
        self,
        example: Seq<char>,
        description: Seq<char>,
        result: Option<ValueModel>,
    ) -> bool {
        &&& self.example@ == example
        &&& self.description@ == description
        &&& match result {
            None => self.result is None,
            Some(value) => self.result matches Some(given) && given@ == value,
        }
    }
}

/// The record `{ greeting: text }`, as a view.
pub open spec fn greeting_model(text: Seq<char>) -> ValueModel {
    ValueModel::Record(seq![("greeting"@, ValueModel::String(text))])
}

/// The record `{ greeting: text }`, which the examples give.
pub fn greeting(text: &str) -> (r: StructuredValue)
    ensures
        r@ == greeting_model(text@),
{
    let mut fields: Vec<(String, StructuredValue)> = Vec::new();
    fields.push((String::from_str("greeting"), StructuredValue::String(String::from_str(text))));
    proof {
        lemma_record_view(fields);
        assert(crate::value::fields_view(fields@) =~= greeting_model(text@)->Record_0);
    }
    StructuredValue::Record(fields)
}

} // verus!
