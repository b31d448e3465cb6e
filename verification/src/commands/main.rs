//! `msgpack`: the command that stands over the others and shows their help.
use vstd::prelude::*;
use crate::commands::signature::{Category, Shape, Signature};
use crate::value::{StructuredValue, ValueModel};

verus! {

/// The command `msgpack`.
pub struct Main;

impl Main {
    /// The name under which the shell calls the command.
    pub fn name(&self) -> (r: &'static str)
        ensures
            r@ == "msgpack"@,
    {
        "msgpack"
    }

    /// One line on what the command does.
    pub fn usage(&self) -> (r: &'static str)
        ensures
            r@ == "MsgPack commands for Nushell."@,
    {
        "MsgPack commands for Nushell."
    }

    /// What the help says beyond the one line: nothing.
    pub fn extra_usage(&self) -> (r: &'static str)
        ensures
            r@ == ""@,
    {
        ""
    }

    /// The words under which the shell's help finds the command.
    pub fn search_terms(&self) -> (r: Vec<&'static str>)
        ensures
            r@.len() == 2,
            r@[0]@ == "msgpack"@,
            r@[1]@ == "plugins"@,
    {
        let mut terms: Vec<&'static str> = Vec::new();
        terms.push("msgpack");
        terms.push("plugins");
        terms
    }

    /// The signature: no flag, and no word on what goes in and comes out.
    pub fn signature(&self) -> (r: Signature)
        ensures
            r.is_for("msgpack"@, None, Seq::empty(), Shape::Any, Shape::Any),
    {
        Signature {
            name: self.name(),
            category: Category::Formats,
            flag: None,
            input: Shape::Any,
            output: Shape::Any,
        }
    }

    /// Runs the command: hands back the help text that the shell wrote for it, as a string.
    pub fn run(&self, help: String) -> (r: StructuredValue)
        ensures
            r@ == ValueModel::String(help@),
    {
        StructuredValue::String(help)
    }
}

} // verus!
