//! The chat messages exchanged with the local model in agent mode.

use vstd::prelude::*;
use crate::text::{owned, str_option};

verus! {

/// The function a tool call invokes, with its JSON-encoded arguments.
#[derive(Debug, Clone)]
pub struct FunctionCall {
    pub name: String,
    pub arguments: String,
}

/// A tool call requested by the model.
#[derive(Debug, Clone)]
pub struct ToolCall {
    pub id: String,
    /// The call's `type` (always `"function"`).
    pub kind: String,
    pub function: FunctionCall,
}

/// One message of the chat history.
#[derive(Debug, Clone)]
pub struct ChatMessage {
    pub role: String,
    pub content: Option<String>,
    pub tool_calls: Option<Vec<ToolCall>>,
    pub tool_call_id: Option<String>,
    /// For a `tool` message: the name and arguments of the call whose
    /// result `content` holds. Only shown, never sent to the model.
    pub display: Option<(String, String)>,
}

/// The abstract value of a [`ToolCall`].
pub struct ToolCallView {
    pub id: Seq<char>,
    pub kind: Seq<char>,
    pub name: Seq<char>,
    pub arguments: Seq<char>,
}

/// The abstract value of a [`ChatMessage`].
#[verifier::ext_equal]
pub struct MessageView {
    pub role: Seq<char>,
    pub content: Option<Seq<char>>,
    pub tool_calls: Option<Seq<ToolCallView>>,
    pub tool_call_id: Option<Seq<char>>,
    pub display: Option<(Seq<char>, Seq<char>)>,
}

impl View for ToolCall {
    type V = ToolCallView;

    open spec fn view(&self) -> ToolCallView {
        ToolCallView { id: self.id@, kind: self.kind@, name: self.function.name@, arguments: self.function.arguments@ }
    }
}

/// The abstract value of an optional list of tool calls.
pub open spec fn calls_view(c: Option<Vec<ToolCall>>) -> Option<Seq<ToolCallView>> {
    match c {
        Some(v) => Some(v@.map_values(|t: ToolCall| t@)),
        None => None,
    }
}

/// The abstract value of an optional pair of strings.
pub open spec fn pair_option(p: Option<(String, String)>) -> Option<(Seq<char>, Seq<char>)> {
    match p {
        Some((a, b)) => Some((a@, b@)),
        None => None,
    }
}

impl View for ChatMessage {
    type V = MessageView;

    open spec fn view(&self) -> MessageView {
        MessageView {
            role: self.role@,
            content: str_option(self.content),
            tool_calls: calls_view(self.tool_calls),
            tool_call_id: str_option(self.tool_call_id),
            display: pair_option(self.display),
        }
    }
}

/// A plain message with the given role and text.
pub open spec fn text_message(role: Seq<char>, content: Seq<char>) -> MessageView {
    MessageView { role, content: Some(content), tool_calls: None, tool_call_id: None, display: None }
}

/// The message carrying the result of a tool call.
pub open spec fn tool_result_message(
    tool_call_id: Seq<char>,
    name: Seq<char>,
    arguments: Seq<char>,
    result: Seq<char>,
) -> MessageView {
    MessageView {
        role: "tool"@,
        content: Some(result),
        tool_calls: None,
        tool_call_id: Some(tool_call_id),
        display: Some((name, arguments)),
    }
}

impl ChatMessage {
    /// A message from the user.
    pub fn user(content: &str) -> (r: Self)
        ensures
            r@ == text_message("user"@, content@),
    {
        ChatMessage { role: owned("user"), content: Some(owned(content)), tool_calls: None, tool_call_id: None, display: None }
    }

    /// A system prompt.
    pub fn system(content: &str) -> (r: Self)
        ensures
            r@ == text_message("system"@, content@),
    {
        ChatMessage { role: owned("system"), content: Some(owned(content)), tool_calls: None, tool_call_id: None, display: None }
    }

    /// A reply of the assistant.
    pub fn assistant(content: String) -> (r: Self)
        ensures
            r@ == text_message("assistant"@, content@),
    {
        ChatMessage { role: owned("assistant"), content: Some(content), tool_calls: None, tool_call_id: None, display: None }
    }

    /// The result of the tool call `tool_call_id`, remembering which tool was
    /// called with which arguments.
    pub fn tool_result(tool_call_id: String, name: String, arguments: String, result: String) -> (r: Self)
        ensures
            r@ == tool_result_message(tool_call_id@, name@, arguments@, result@),
    {
        ChatMessage {
            role: owned("tool"),
            content: Some(result),
            tool_calls: None,
            tool_call_id: Some(tool_call_id),
            display: Some((name, arguments)),
        }
    }
}

} // verus!
