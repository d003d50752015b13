//! The tools that the bridge offers.

use vstd::prelude::*;
use crate::json::{JsonValue, JsonModel};

verus! {

/// One operation of the API, offered as a tool.
pub struct Tool {
    pub name: String,
    pub description: String,
    pub path: String,
    pub method: String,
    /// JSON schema of the tool's arguments.
    pub schema: JsonValue,
}

/// The model of a tool.
pub struct ToolModel {
    pub name: Seq<char>,
    pub description: Seq<char>,
    pub path: Seq<char>,
    pub method: Seq<char>,
    pub schema: JsonModel,
}

impl Tool {
    pub open spec fn model(self) -> ToolModel {
        ToolModel {
            name: self.name@,
            description: self.description@,
            path: self.path@,
            method: self.method@,
            schema: self.schema.model(),
        }
    }

    /// A copy of this tool.
    pub fn copy(&self) -> (r: Tool)
        ensures
            r.model() == self.model(),
    {
        Tool {
            name: self.name.clone(),
            description: self.description.clone(),
            path: self.path.clone(),
            method: self.method.clone(),
            schema: self.schema.deep_copy(),
        }
    }
}

/// The models of a sequence of tools.
pub open spec fn tool_models_of(s: Seq<Tool>) -> Seq<ToolModel> {
    s.map_values(|t: Tool| t.model())
}

} // verus!
