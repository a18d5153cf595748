//! Model events as the library sees them: the plain values that the chat
//! stream and the history replay read out of an agent event.
use vstd::prelude::*;

verus! {

/// One part of a model or user message.
pub enum Part {
    Text { text: String },
    Thinking { thinking: String },
    /// A tool call; `args` is the arguments' JSON text.
    FunctionCall { name: String, args: String },
    /// A tool's reply; `response` is its JSON text, `has_error` / `has_denied`
    /// tell whether it holds an "error" / a "denied" key.
    FunctionResponse { name: String, response: String, has_error: bool, has_denied: bool },
    /// Any other kind of part (inline data, code execution, ...).
    Other,
}

pub enum PartView {
    Text(Seq<char>),
    Thinking(Seq<char>),
    FunctionCall(Seq<char>, Seq<char>),
    FunctionResponse(Seq<char>, Seq<char>, bool, bool),
    Other,
}

impl View for Part {
    type V = PartView;

    open spec fn view(&self) -> PartView {
        match self {
            Part::Text { text } => PartView::Text(text@),
            Part::Thinking { thinking } => PartView::Thinking(thinking@),
            Part::FunctionCall { name, args } => PartView::FunctionCall(name@, args@),
            Part::FunctionResponse { name, response, has_error, has_denied } =>
                PartView::FunctionResponse(name@, response@, *has_error, *has_denied),
            Part::Other => PartView::Other,
        }
    }
}

/// The content of a message: its author role and its parts.
pub struct Content {
    pub role: String,
    pub parts: Vec<Part>,
}

/// An agent event: a model error, or some content, streamed partially or whole.
pub struct ModelEvent {
    pub error_message: Option<String>,
    pub content: Option<Content>,
    pub partial: bool,
}

/// The parts' views, in order.
pub open spec fn parts_view(parts: Seq<Part>) -> Seq<PartView> {
    parts.map_values(|p: Part| p@)
}

} // verus!
