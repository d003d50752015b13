//! The decisions of the tool server: which tool a call names, what a listed tool's input
//! schema is, and how the outcome of a call is reported.

use vstd::prelude::*;
use crate::json::{JsonValue, JsonModel, entry_models};
use crate::state::{Tool, ToolModel, tool_models_of};

verus! {

/// Whether `i` is the first tool named `name`.
pub open spec fn is_first_named(tools: Seq<ToolModel>, name: Seq<char>, i: int) -> bool {
    &&& 0 <= i < tools.len()
    &&& tools[i].name == name
    &&& forall|j: int| 0 <= j < i ==> tools[j].name != name
}

/// The first tool named `name`, if any.
pub fn find_tool(tools: &Vec<Tool>, name: &String) -> (r: Option<Tool>)
    ensures
        match r {
            Some(t) => exists|i: int| is_first_named(tool_models_of(tools@), name@, i)
                && t.model() == tools@[i].model(),
            None => forall|i: int| 0 <= i < tools@.len() ==> tools@[i].name@ != name@,
        },
{
    let n = tools.len();
    for i in 0..n
        invariant
            n == tools@.len(),
            forall|j: int| 0 <= j < i ==> tools@[j].name@ != name@,
    {
        if tools[i].name == *name {
            let t = tools[i].copy();
            assert(is_first_named(tool_models_of(tools@), name@, i as int));
            return Some(t);
        }
    }
    None
}

/// The input schema a tool is listed with: the entries of its schema where that is an
/// object, and no entries otherwise.
pub fn input_schema(schema: &JsonValue) -> (r: Vec<(String, JsonValue)>)
    ensures
        entry_models(r@) == match schema.model() {
            JsonModel::Object(es) => es,
            _ => Seq::empty(),
        },
{
    match schema {
        JsonValue::Object(es) => {
            let mut out: Vec<(String, JsonValue)> = Vec::new();
            let n = es.len();
            for i in 0..n
                invariant
                    n == es@.len(),
                    entry_models(out@) == entry_models(es@.take(i as int)),
            {
                let ghost prev = out@;
                out.push((es[i].0.clone(), es[i].1.deep_copy()));
                assert(es@.take(i + 1).drop_last() =~= es@.take(i as int));
                assert(out@.drop_last() =~= prev);
            }
            assert(es@.take(n as int) =~= es@);
            out
        },
        _ => {
            let r: Vec<(String, JsonValue)> = Vec::new();
            assert(entry_models(r@) =~= Seq::empty());
            r
        },
    }
}

/// How the outcome of a tool call is reported.
pub struct CallOutcome {
    pub text: String,
    pub is_error: bool,
}

/// Reports a call: the result's text where it succeeded, and "Error: " followed by the
/// error's message where it failed.
pub fn call_outcome(result: Result<String, String>) -> (r: CallOutcome)
    ensures
        match result {
            Ok(text) => r.text@ == text@ && !r.is_error,
            Err(msg) => r.text@ == "Error: "@ + msg@ && r.is_error,
        },
{
    match result {
        Ok(text) => CallOutcome { text, is_error: false },
        Err(msg) => {
            let mut text = "Error: ".to_owned();
            text.append(msg.as_str());
            CallOutcome { text, is_error: true }
        },
    }
}

} // verus!
