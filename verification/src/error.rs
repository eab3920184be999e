//! The error of a tool: a message for whoever called it.

use vstd::prelude::*;
use vstd::string::*;

verus! {

/// A tool failed; the text says why.
#[derive(Debug, Clone)]
pub struct ToolExecError(pub String);

impl View for ToolExecError {
    type V = Seq<char>;

    open spec fn view(&self) -> Seq<char> {
        self.0@
    }
}

impl ToolExecError {
    /// The message.
    pub fn to_string(&self) -> (r: String)
        ensures
            r@ == self@,
    {
        self.0.clone()
    }
}

/// The error with the message `text`.
pub fn tool_error(text: &str) -> (e: ToolExecError)
    ensures
        e@ == text@,
{
    ToolExecError(text.to_owned())
}

/// The error with the message `text` followed by `detail`.
pub fn tool_error_with(text: &str, detail: &str) -> (e: ToolExecError)
    ensures
        e@ == text@ + detail@,
{
    let mut m = text.to_owned();
    m.append(detail);
    ToolExecError(m)
}

} // verus!
