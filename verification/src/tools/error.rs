//! Errors of tool execution.
use vstd::prelude::*;

verus! {

/// Structured errors from tool execution. Failures of outside operations
/// (I/O, pattern compilation) carry their message.
#[derive(Debug)]
pub enum ToolError {
    Cancelled,
    InvalidArguments(String),
    Io(String),
    Regex(String),
    NotFound(String),
    EditFailed(String),
    AskError(String),
    Other(String),
}

/// A tool error as data: its kind and message.
pub enum ToolErrorView {
    Cancelled,
    InvalidArguments(Seq<char>),
    Io(Seq<char>),
    Regex(Seq<char>),
    NotFound(Seq<char>),
    EditFailed(Seq<char>),
    AskError(Seq<char>),
    Other(Seq<char>),
}

impl View for ToolError {
    type V = ToolErrorView;

    open spec fn view(&self) -> ToolErrorView {
        match self {
            ToolError::Cancelled => ToolErrorView::Cancelled,
            ToolError::InvalidArguments(s) => ToolErrorView::InvalidArguments(s@),
            ToolError::Io(s) => ToolErrorView::Io(s@),
            ToolError::Regex(s) => ToolErrorView::Regex(s@),
            ToolError::NotFound(s) => ToolErrorView::NotFound(s@),
            ToolError::EditFailed(s) => ToolErrorView::EditFailed(s@),
            ToolError::AskError(s) => ToolErrorView::AskError(s@),
            ToolError::Other(s) => ToolErrorView::Other(s@),
        }
    }
}

/// The text that describes an error to the user.
pub open spec fn error_text(e: ToolErrorView) -> Seq<char> {
    match e {
        ToolErrorView::Cancelled => "Execution cancelled"@,
        ToolErrorView::InvalidArguments(s) => "Invalid arguments: "@ + s,
        ToolErrorView::Io(s) => "IO error: "@ + s,
        ToolErrorView::Regex(s) => "Regex error: "@ + s,
        ToolErrorView::NotFound(s) => "Tool not found: "@ + s,
        ToolErrorView::EditFailed(s) => "Edit failed: "@ + s,
        ToolErrorView::AskError(s) => "Ask error: "@ + s,
        ToolErrorView::Other(s) => s,
    }
}

impl ToolError {
    /// The message of the error, as the tool reports it.
    pub fn message(&self) -> (s: String)
        ensures
            s@ == error_text(self@),
    {
        let mut m: Vec<char> = Vec::new();
        match self {
            ToolError::Cancelled => {
                crate::text::extend_str(&mut m, "Execution cancelled");
            },
            ToolError::InvalidArguments(s) => {
                crate::text::extend_str(&mut m, "Invalid arguments: ");
                crate::text::extend_str(&mut m, s.as_str());
            },
            ToolError::Io(s) => {
                crate::text::extend_str(&mut m, "IO error: ");
                crate::text::extend_str(&mut m, s.as_str());
            },
            ToolError::Regex(s) => {
                crate::text::extend_str(&mut m, "Regex error: ");
                crate::text::extend_str(&mut m, s.as_str());
            },
            ToolError::NotFound(s) => {
                crate::text::extend_str(&mut m, "Tool not found: ");
                crate::text::extend_str(&mut m, s.as_str());
            },
            ToolError::EditFailed(s) => {
                crate::text::extend_str(&mut m, "Edit failed: ");
                crate::text::extend_str(&mut m, s.as_str());
            },
            ToolError::AskError(s) => {
                crate::text::extend_str(&mut m, "Ask error: ");
                crate::text::extend_str(&mut m, s.as_str());
            },
            ToolError::Other(s) => {
                crate::text::extend_str(&mut m, s.as_str());
            },
        }
        assert(m@ =~= error_text(self@));
        crate::text::string_of(&m)
    }
}

/// The error for a call of a tool that is not registered.
pub fn unknown_tool(name: &str) -> (e: ToolError)
    ensures
        e@ == ToolErrorView::NotFound("Unknown tool: "@ + name@),
{
    let mut m: Vec<char> = Vec::new();
    crate::text::extend_str(&mut m, "Unknown tool: ");
    crate::text::extend_str(&mut m, name);
    ToolError::NotFound(crate::text::string_of(&m))
}

} // verus!
