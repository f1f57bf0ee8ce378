//! How the chat history is shown in agent mode: user and assistant bubbles,
//! with each run of tool results collapsed into one group.

use vstd::prelude::*;
use crate::text::{owned, str_eq, str_option};
use crate::agent::{ChatMessage, MessageView};
use crate::json::{json_pretty, json_pretty_of};

verus! {

/// One executed tool call as shown in a group.
#[derive(Debug)]
pub struct ToolCallDisplay {
    pub name: String,
    pub arguments: String,
    pub result: Option<String>,
}

/// One entry of the chat panel.
#[derive(Debug)]
pub enum DisplayItem {
    Message { role: String, content: String },
    Tools { group_index: usize, calls: Vec<ToolCallDisplay> },
}

/// The abstract value of a [`ToolCallDisplay`].
pub struct CallDisplayView {
    pub name: Seq<char>,
    pub arguments: Seq<char>,
    pub result: Option<Seq<char>>,
}

impl View for ToolCallDisplay {
    type V = CallDisplayView;

    open spec fn view(&self) -> CallDisplayView {
        CallDisplayView { name: self.name@, arguments: self.arguments@, result: str_option(self.result) }
    }
}

/// The abstract value of a [`DisplayItem`].
pub enum ItemView {
    Message(Seq<char>, Seq<char>),
    Tools(nat, Seq<CallDisplayView>),
}

impl View for DisplayItem {
    type V = ItemView;

    open spec fn view(&self) -> ItemView {
        match self {
            DisplayItem::Message { role, content } => ItemView::Message(role@, content@),
            DisplayItem::Tools { group_index, calls } => ItemView::Tools(
                *group_index as nat,
                calls@.map_values(|c: ToolCallDisplay| c@),
            ),
        }
    }
}

/// How a tool message is shown: the call's name and arguments (or `tool`
/// and `{}` when unknown) and its result.
pub open spec fn tool_display(m: MessageView) -> CallDisplayView {
    match m.display {
        Some((n, a)) => CallDisplayView { name: n, arguments: a, result: m.content },
        None => CallDisplayView { name: "tool"@, arguments: "{}"@, result: m.content },
    }
}

/// Whether a message is shown as a bubble: a user or assistant message
/// with non-empty content.
pub open spec fn shown_as_bubble(m: MessageView) -> bool {
    &&& (m.role == "user"@ || m.role == "assistant"@)
    &&& m.content is Some
    &&& m.content->Some_0.len() > 0
}

/// The end of the run of tool messages starting at `i`.
pub open spec fn tool_run_end(ms: Seq<MessageView>, i: int) -> int
    decreases ms.len() - i,
{
    if 0 <= i < ms.len() && ms[i].role == "tool"@ {
        tool_run_end(ms, i + 1)
    } else {
        i
    }
}

pub proof fn lemma_tool_run_end(ms: Seq<MessageView>, i: int)
    requires
        0 <= i <= ms.len(),
    ensures
        i <= tool_run_end(ms, i) <= ms.len(),
        forall|k: int| i <= k < tool_run_end(ms, i) ==> (#[trigger] ms[k]).role == "tool"@,
        tool_run_end(ms, i) < ms.len() ==> ms[tool_run_end(ms, i)].role != "tool"@,
    decreases ms.len() - i,
{
    if i < ms.len() && ms[i].role == "tool"@ {
        lemma_tool_run_end(ms, i + 1);
    }
}

/// The items shown for the messages from position `i` on.
pub open spec fn items_from(ms: Seq<MessageView>, i: int) -> Seq<ItemView>
    decreases ms.len() - i,
{
    if i < 0 || i >= ms.len() {
        seq![]
    } else if ms[i].role == "tool"@ {
        let j = tool_run_end(ms, i);
        proof {
            lemma_tool_run_end(ms, i);
        }
        seq![ItemView::Tools(i as nat, Seq::new((j - i) as nat, |k: int| tool_display(ms[i + k])))]
            + items_from(ms, j)
    } else if shown_as_bubble(ms[i]) {
        seq![ItemView::Message(ms[i].role, ms[i].content->Some_0)] + items_from(ms, i + 1)
    } else {
        items_from(ms, i + 1)
    }
}

fn clone_opt(o: &Option<String>) -> (r: Option<String>)
    ensures
        str_option(r) == str_option(*o),
{
    match o {
        Some(s) => Some(s.clone()),
        None => None,
    }
}

/// Turns the chat history into what the panel shows: user and assistant
/// messages with text as bubbles, each run of consecutive tool results as one
/// group (indexed by the position of its first message), everything else
/// hidden.
pub fn build_display_items(messages: &Vec<ChatMessage>) -> (r: Vec<DisplayItem>)
    ensures
        r@.map_values(|d: DisplayItem| d@) == items_from(messages@.map_values(|m: ChatMessage| m@), 0),
{
    let ghost ms = messages@.map_values(|m: ChatMessage| m@);
    let mut items: Vec<DisplayItem> = Vec::new();
    let mut i: usize = 0;
    let n = messages.len();
    while i < n
        invariant
            n == messages@.len() == ms.len(),
            ms == messages@.map_values(|m: ChatMessage| m@),
            i <= n,
            items_from(ms, 0) == items@.map_values(|d: DisplayItem| d@) + items_from(ms, i as int),
        decreases n - i,
    {
        let ghost before = items@.map_values(|d: DisplayItem| d@);
        let m = &messages[i];
        assert(ms[i as int] == m@);
        if str_eq(m.role.as_str(), "tool") {
            let start = i;
            let mut calls: Vec<ToolCallDisplay> = Vec::new();
            proof {
                lemma_tool_run_end(ms, start as int);
            }
            while i < n && str_eq(messages[i].role.as_str(), "tool")
                invariant
                    n == messages@.len() == ms.len(),
                    ms == messages@.map_values(|m: ChatMessage| m@),
                    start <= i <= n,
                    tool_run_end(ms, start as int) == tool_run_end(ms, i as int),
                    calls@.map_values(|c: ToolCallDisplay| c@) == Seq::new((i - start) as nat, |k: int| tool_display(ms[start + k])),
                decreases n - i,
            {
                let t = &messages[i];
                assert(ms[i as int] == t@);
                let (name, arguments) = match &t.display {
                    Some((a, b)) => (a.clone(), b.clone()),
                    None => (owned("tool"), owned("{}")),
                };
                let ghost cb = calls@.map_values(|c: ToolCallDisplay| c@);
                let d = ToolCallDisplay { name, arguments, result: clone_opt(&t.content) };
                assert(d@ == tool_display(ms[i as int]));
                calls.push(d);
                assert(calls@.map_values(|c: ToolCallDisplay| c@) =~= cb.push(d@));
                i = i + 1;
                assert(calls@.map_values(|c: ToolCallDisplay| c@) =~= Seq::new((i - start) as nat, |k: int| tool_display(ms[start + k])));
            }
            assert(tool_run_end(ms, i as int) == i) by {
                lemma_tool_run_end(ms, i as int);
                if i < n {
                    assert(ms[i as int] == messages@[i as int]@);
                }
            }
            let ghost cv = calls@.map_values(|c: ToolCallDisplay| c@);
            items.push(DisplayItem::Tools { group_index: start, calls });
            assert(items@.map_values(|d: DisplayItem| d@) =~= before.push(ItemView::Tools(start as nat, cv)));
        } else {
            let is_chat = str_eq(m.role.as_str(), "user") || str_eq(m.role.as_str(), "assistant");
            let shown = is_chat && match &m.content {
                Some(c) => c.as_str().unicode_len() > 0,
                None => false,
            };
            if shown {
                let content = match &m.content {
                    Some(c) => c.clone(),
                    None => String::new(),
                };
                let role = m.role.clone();
                items.push(DisplayItem::Message { role, content });
                assert(items@.map_values(|d: DisplayItem| d@) =~= before.push(ItemView::Message(ms[i as int].role, ms[i as int].content->Some_0)));
            }
            i = i + 1;
        }
    }
    assert(items@.map_values(|d: DisplayItem| d@) + items_from(ms, n as int) =~= items@.map_values(|d: DisplayItem| d@));
    items
}

/// Whether a message is one of the conversation's visible turns: a user or
/// assistant message that has content.
pub open spec fn is_visible(m: MessageView) -> bool {
    (m.role == "user"@ || m.role == "assistant"@) && m.content is Some
}

/// The visible messages from position `i` on.
pub open spec fn visible_from(ms: Seq<MessageView>, i: int) -> Seq<MessageView>
    decreases ms.len() - i,
{
    if i < 0 || i >= ms.len() {
        seq![]
    } else if is_visible(ms[i]) {
        seq![ms[i]] + visible_from(ms, i + 1)
    } else {
        visible_from(ms, i + 1)
    }
}

/// The user and assistant messages that have content, in order; tool
/// plumbing is left out.
pub fn visible_messages(messages: &Vec<ChatMessage>) -> (r: Vec<&ChatMessage>)
    ensures
        r@.map_values(|m: &ChatMessage| m@) == visible_from(messages@.map_values(|m: ChatMessage| m@), 0),
{
    let ghost ms = messages@.map_values(|m: ChatMessage| m@);
    let mut out: Vec<&ChatMessage> = Vec::new();
    let mut i: usize = 0;
    while i < messages.len()
        invariant
            ms == messages@.map_values(|m: ChatMessage| m@),
            i <= messages@.len(),
            visible_from(ms, 0) == out@.map_values(|m: &ChatMessage| m@) + visible_from(ms, i as int),
        decreases messages@.len() - i,
    {
        let m = &messages[i];
        assert(ms[i as int] == m@);
        let ghost before = out@.map_values(|m: &ChatMessage| m@);
        if (str_eq(m.role.as_str(), "user") || str_eq(m.role.as_str(), "assistant")) && m.content.is_some() {
            out.push(m);
            assert(out@.map_values(|m: &ChatMessage| m@) =~= before.push(ms[i as int]));
        }
        i = i + 1;
    }
    assert(out@.map_values(|m: &ChatMessage| m@) + visible_from(ms, messages@.len() as int) =~= out@.map_values(|m: &ChatMessage| m@));
    out
}

/// How a tool call's JSON is shown: pretty-printed when it parses, as is otherwise.
pub open spec fn pretty_text(raw: Seq<char>) -> Seq<char> {
    match json_pretty_of(raw) {
        Some(p) => p,
        None => raw,
    }
}

/// Pretty-prints JSON for display, leaving text that does not parse as it is.
pub fn pretty_json(raw: &str) -> (r: String)
    ensures
        r@ == pretty_text(raw@),
{
    match json_pretty(raw) {
        Some(p) => p,
        None => owned(raw),
    }
}

} // verus!

verus! {

/// The number of tool messages from position `i` on.
pub open spec fn tool_count_from(ms: Seq<MessageView>, i: int) -> nat
    decreases ms.len() - i,
{
    if i < 0 || i >= ms.len() {
        0
    } else {
        (if ms[i].role == "tool"@ { 1nat } else { 0nat }) + tool_count_from(ms, i + 1)
    }
}

/// The number of tool calls shown in the groups of `items`.
pub open spec fn grouped_calls(items: Seq<ItemView>) -> nat
    decreases items.len(),
{
    if items.len() == 0 {
        0
    } else {
        (match items[0] {
            ItemView::Tools(_, cs) => cs.len(),
            ItemView::Message(_, _) => 0nat,
        }) + grouped_calls(items.drop_first())
    }
}

proof fn lemma_run_count(ms: Seq<MessageView>, i: int)
    requires
        0 <= i <= ms.len(),
    ensures
        tool_count_from(ms, i) == (tool_run_end(ms, i) - i) + tool_count_from(ms, tool_run_end(ms, i)),
    decreases ms.len() - i,
{
    if i < ms.len() && ms[i].role == "tool"@ {
        lemma_run_count(ms, i + 1);
    }
}

/// Every tool result is shown, in exactly one group: the groups together
/// hold as many calls as the history holds tool messages.
pub proof fn law_every_tool_result_is_grouped(ms: Seq<MessageView>, i: int)
    requires
        0 <= i <= ms.len(),
    ensures
        grouped_calls(items_from(ms, i)) == tool_count_from(ms, i),
    decreases ms.len() - i,
{
    if i < ms.len() {
        if ms[i].role == "tool"@ {
            let j = tool_run_end(ms, i);
            lemma_tool_run_end(ms, i);
            lemma_run_count(ms, i);
            law_every_tool_result_is_grouped(ms, j);
            let first = ItemView::Tools(i as nat, Seq::new((j - i) as nat, |k: int| tool_display(ms[i + k])));
            assert((seq![first] + items_from(ms, j)).drop_first() =~= items_from(ms, j));
        } else {
            law_every_tool_result_is_grouped(ms, i + 1);
            if shown_as_bubble(ms[i]) {
                let first = ItemView::Message(ms[i].role, ms[i].content->Some_0);
                assert((seq![first] + items_from(ms, i + 1)).drop_first() =~= items_from(ms, i + 1));
            }
        }
    }
}

} // verus!
