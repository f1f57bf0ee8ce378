//! One agent turn as a state machine: the library decides, the caller
//! performs the chat request or cryptographic primitive each step asks for
//! and feeds the reply back.

use vstd::prelude::*;
use crate::text::{decimal, decimal_chars, owned, push_chars};
use crate::agent::{
    ChatMessage, MessageView, ToolCall, ToolCallView, text_message, tool_result_message,
};
use crate::tools::{
    execute_tool, extract_pseudo_tool_call, finish_tool, keys_view, looks_like_bare_tool_call,
    reply_view, tool_finish, tool_step, bare_tool_call, pseudo_call_from, PendingTool, PendingView,
    StepView, ToolStep,
};
use crate::crypto_meta::{CryptoOp, CryptoRequest, EncryptResult, EncryptResultView};

verus! {

/// How many chat requests one turn may make at most.
pub const MAX_ROUNDS: usize = 6;

/// A tool call waiting to be run.
#[derive(Debug)]
pub struct PendingCall {
    pub id: String,
    pub name: String,
    pub arguments: String,
}

/// The abstract value of a [`PendingCall`].
#[verifier::ext_equal]
pub struct CallView {
    pub id: Seq<char>,
    pub name: Seq<char>,
    pub arguments: Seq<char>,
}

impl View for PendingCall {
    type V = CallView;

    open spec fn view(&self) -> CallView {
        CallView { id: self.id@, name: self.name@, arguments: self.arguments@ }
    }
}

/// The state of a turn between two steps.
#[derive(Debug)]
pub struct AgentTurn {
    /// The current round (chat request) of the turn, from 0.
    pub round: usize,
    /// The keys/IVs the tools generated or used so far.
    pub new_keys: Vec<(String, usize)>,
    /// Tool calls of the current round still to run.
    pub queue: Vec<PendingCall>,
    /// The tool call whose primitive is running.
    pub waiting: Option<(PendingCall, PendingTool)>,
}

/// The abstract value of an [`AgentTurn`].
#[verifier::ext_equal]
pub struct TurnView {
    pub round: nat,
    pub keys: Seq<(Seq<char>, usize)>,
    pub queue: Seq<CallView>,
    pub waiting: Option<(CallView, PendingView)>,
}

/// The abstract value of a list of pending calls.
pub open spec fn queue_view(q: Seq<PendingCall>) -> Seq<CallView> {
    q.map_values(|c: PendingCall| c@)
}

impl View for AgentTurn {
    type V = TurnView;

    open spec fn view(&self) -> TurnView {
        TurnView {
            round: self.round as nat,
            keys: keys_view(self.new_keys@),
            queue: queue_view(self.queue@),
            waiting: match self.waiting {
                Some((c, p)) => Some((c@, p@)),
                None => None,
            },
        }
    }
}

/// What the caller must do next.
#[derive(Debug)]
pub enum TurnAction {
    /// Send the history to the model and report its reply.
    SendChat,
    /// Run this primitive and report its result.
    RunCrypto(CryptoRequest),
    /// The turn is over; these keys/IVs were generated or used.
    Finished(Vec<(String, usize)>),
}

/// The abstract value of a [`TurnAction`].
#[verifier::ext_equal]
pub enum ActionView {
    SendChat,
    RunCrypto(CryptoOp),
    Finished(Seq<(Seq<char>, usize)>),
}

impl View for TurnAction {
    type V = ActionView;

    open spec fn view(&self) -> ActionView {
        match self {
            TurnAction::SendChat => ActionView::SendChat,
            TurnAction::RunCrypto(r) => ActionView::RunCrypto(r@),
            TurnAction::Finished(k) => ActionView::Finished(keys_view(k@)),
        }
    }
}

/// The abstract value of a chat history.
pub open spec fn history_view(h: Seq<ChatMessage>) -> Seq<MessageView> {
    h.map_values(|m: ChatMessage| m@)
}

/// The state, history and next action after a step.
#[verifier::ext_equal]
pub struct Outcome {
    pub turn: TurnView,
    pub history: Seq<MessageView>,
    pub action: ActionView,
}

/// The note added when a turn runs out of rounds.
pub open spec fn stop_note() -> Seq<char> {
    "Stopped after too many tool calls in a row."@
}

/// The note sent back when the model only named a tool in its text.
pub open spec fn nudge_note() -> Seq<char> {
    "That was not a real tool call, just text \u{2014} nothing happened. Invoke the tool for real using the function/tool-calling mechanism, with all its required arguments."@
}

/// Moving on from round `round`: another chat request while rounds remain,
/// otherwise the turn ends with a note.
pub open spec fn next_round(round: nat, keys: Seq<(Seq<char>, usize)>, hist: Seq<MessageView>) -> Outcome {
    let turn = TurnView { round: round + 1, keys, queue: seq![], waiting: None };
    if round + 1 < MAX_ROUNDS {
        Outcome { turn, history: hist, action: ActionView::SendChat }
    } else {
        Outcome { turn, history: hist.push(text_message("assistant"@, stop_note())), action: ActionView::Finished(keys) }
    }
}

/// Running the queued tool calls in order until one needs a primitive or
/// none is left.
pub open spec fn drain(round: nat, queue: Seq<CallView>, keys: Seq<(Seq<char>, usize)>, hist: Seq<MessageView>) -> Outcome
    decreases queue.len(),
{
    if queue.len() == 0 {
        next_round(round, keys, hist)
    } else {
        let c = queue[0];
        match tool_step(c.name, c.arguments) {
            StepView::Done(o) => drain(
                round,
                queue.drop_first(),
                keys + o.keys,
                hist.push(tool_result_message(c.id, c.name, c.arguments, o.result)),
            ),
            StepView::Crypto(op, p) => Outcome {
                turn: TurnView { round, keys, queue: queue.drop_first(), waiting: Some((c, p)) },
                history: hist,
                action: ActionView::RunCrypto(op),
            },
        }
    }
}

/// The pending form of a tool call.
pub open spec fn call_of(t: ToolCallView) -> CallView {
    CallView { id: t.id, name: t.name, arguments: t.arguments }
}

/// The id given to a tool call written as text in round `round`.
pub open spec fn fallback_id(round: nat) -> Seq<char> {
    "fallback-"@ + decimal(round)
}

/// The step after the model replied (or the request failed).
pub open spec fn after_chat(turn: TurnView, hist: Seq<MessageView>, reply: Result<MessageView, Seq<char>>) -> Outcome {
    match reply {
        Err(e) => Outcome {
            turn,
            history: hist.push(text_message("assistant"@, e)),
            action: ActionView::Finished(turn.keys),
        },
        Ok(m) => match m.tool_calls {
            Some(cs) if cs.len() > 0 => drain(turn.round, cs.map_values(|t: ToolCallView| call_of(t)), turn.keys, hist.push(m)),
            _ => {
                let content = match m.content { Some(c) => c, None => Seq::<char>::empty() };
                match pseudo_call_from(content, 0) {
                    Some((n, a)) => drain(
                        turn.round,
                        seq![CallView { id: fallback_id(turn.round), name: n, arguments: a }],
                        turn.keys,
                        hist.push(MessageView { content: None, ..m }),
                    ),
                    None => if bare_tool_call(content) {
                        next_round(turn.round, turn.keys, hist.push(m).push(text_message("user"@, nudge_note())))
                    } else {
                        Outcome { turn, history: hist.push(m), action: ActionView::Finished(turn.keys) }
                    },
                }
            },
        },
    }
}

/// The step after the waiting call's primitive replied.
pub open spec fn after_crypto(turn: TurnView, hist: Seq<MessageView>, reply: Result<EncryptResultView, Seq<char>>) -> Outcome {
    match turn.waiting {
        Some((c, p)) => {
            let o = tool_finish(p, reply);
            drain(turn.round, turn.queue, turn.keys + o.keys,
                hist.push(tool_result_message(c.id, c.name, c.arguments, o.result)))
        },
        None => drain(turn.round, turn.queue, turn.keys, hist),
    }
}

/// The abstract value of a chat reply.
pub open spec fn chat_reply_view(r: Result<ChatMessage, String>) -> Result<MessageView, Seq<char>> {
    match r {
        Ok(m) => Ok(m@),
        Err(e) => Err(e@),
    }
}

/// A new turn, which starts by sending the history to the model.
pub fn begin_turn() -> (t: AgentTurn)
    ensures
        t@ == (TurnView { round: 0, keys: seq![], queue: seq![], waiting: None }),
{
    let t = AgentTurn { round: 0, new_keys: Vec::new(), queue: Vec::new(), waiting: None };
    assert(t@.keys =~= Seq::<(Seq<char>, usize)>::empty());
    assert(t@.queue =~= Seq::<CallView>::empty());
    t
}

fn append_keys(dst: &mut Vec<(String, usize)>, src: Vec<(String, usize)>)
    ensures
        keys_view(final(dst)@) == keys_view(old(dst)@) + keys_view(src@),
{
    let mut s = src;
    dst.append(&mut s);
    assert(keys_view(dst@) =~= keys_view(old(dst)@) + keys_view(src@));
}

fn take_keys(turn: &mut AgentTurn) -> (r: Vec<(String, usize)>)
    ensures
        keys_view(r@) == keys_view(old(turn).new_keys@),
        final(turn).new_keys@ == old(turn).new_keys@,
        final(turn).round == old(turn).round,
        final(turn).queue@ == old(turn).queue@,
        final(turn).waiting == old(turn).waiting,
{
    let mut k: Vec<(String, usize)> = Vec::new();
    std::mem::swap(&mut k, &mut turn.new_keys);
    let r = clone_keys(&k);
    turn.new_keys = k;
    r
}

fn clone_keys(k: &Vec<(String, usize)>) -> (r: Vec<(String, usize)>)
    ensures
        keys_view(r@) == keys_view(k@),
{
    let mut out: Vec<(String, usize)> = Vec::new();
    let mut i: usize = 0;
    while i < k.len()
        invariant
            i <= k@.len(),
            keys_view(out@) == keys_view(k@.take(i as int)),
        decreases k@.len() - i,
    {
        let (s, n) = &k[i];
        let ghost before = out@;
        let e = (s.clone(), *n);
        out.push(e);
        proof {
            assert(k@.take(i + 1) =~= k@.take(i as int).push(k@[i as int]));
            assert(keys_view(before.push(e)) =~= keys_view(before).push((s@, *n)));
        }
        i = i + 1;
        assert(keys_view(out@) =~= keys_view(k@.take(i as int)));
    }
    assert(k@.take(k@.len() as int) =~= k@);
    out
}

/// Moves on to the next round, or ends the turn after the last one.
fn advance_round(turn: &mut AgentTurn, history: &mut Vec<ChatMessage>) -> (a: TurnAction)
    requires
        old(turn).round < MAX_ROUNDS,
        old(turn).queue@.len() == 0,
    ensures
        (Outcome { turn: final(turn)@, history: history_view(final(history)@), action: a@ })
            == next_round(old(turn)@.round, old(turn)@.keys, history_view(old(history)@)),
{
    turn.round = turn.round + 1;
    turn.waiting = None;
    if turn.round < MAX_ROUNDS {
        assert(turn@.queue =~= Seq::<CallView>::empty());
        TurnAction::SendChat
    } else {
        history.push(ChatMessage::assistant(owned("Stopped after too many tool calls in a row.")));
        assert(history_view(history@) =~= history_view(old(history)@).push(text_message("assistant"@, stop_note())));
        assert(turn@.queue =~= Seq::<CallView>::empty());
        TurnAction::Finished(take_keys(turn))
    }
}

/// Runs the queued calls until one needs a primitive or the round is over.
fn run_queue(turn: &mut AgentTurn, history: &mut Vec<ChatMessage>) -> (a: TurnAction)
    requires
        old(turn).round < MAX_ROUNDS,
        old(turn).waiting is None,
    ensures
        (Outcome { turn: final(turn)@, history: history_view(final(history)@), action: a@ })
            == drain(old(turn)@.round, old(turn)@.queue, old(turn)@.keys, history_view(old(history)@)),
{
    let ghost goal = drain(turn@.round, turn@.queue, turn@.keys, history_view(history@));
    while turn.queue.len() > 0
        invariant
            turn.round < MAX_ROUNDS,
            turn.waiting is None,
            turn.round == old(turn).round,
            goal == drain(turn@.round, turn@.queue, turn@.keys, history_view(history@)),
            goal == drain(old(turn)@.round, old(turn)@.queue, old(turn)@.keys, history_view(old(history)@)),
        decreases turn.queue@.len(),
    {
        let ghost q = turn@.queue;
        let ghost k0 = turn@.keys;
        let ghost h0 = history_view(history@);
        assert(goal == drain(turn@.round, q, k0, h0));
        let call = turn.queue.remove(0);
        assert(queue_view(turn.queue@) =~= q.drop_first());
        assert(call@ == q[0]);
        match execute_tool(call.name.as_str(), call.arguments.as_str()) {
            ToolStep::Done(out) => {
                let ghost ov = out@;
                let ghost hv = history_view(history@);
                append_keys(&mut turn.new_keys, out.keys);
                history.push(ChatMessage::tool_result(call.id, call.name, call.arguments, out.result));
                assert(history_view(history@) =~= hv.push(tool_result_message(q[0].id, q[0].name, q[0].arguments, ov.result)));
            },
            ToolStep::Crypto { request, pending } => {
                let ghost rv = request@;
                let ghost pv = pending@;
                assert(tool_step(q[0].name, q[0].arguments) == StepView::Crypto(rv, pv));
                turn.waiting = Some((call, pending));
                assert(turn@.queue == q.drop_first());
                assert(turn@.waiting == Some((q[0], pv)));
                assert(goal == Outcome { turn: turn@, history: h0, action: ActionView::RunCrypto(rv) });
                return TurnAction::RunCrypto(request);
            },
        }
    }
    advance_round(turn, history)
}

/// The state of a turn is consistent with the protocol: it is between
/// rounds with nothing queued, or it is waiting for one primitive.
pub open spec fn awaiting_chat(t: TurnView) -> bool {
    t.round < MAX_ROUNDS && t.queue.len() == 0 && t.waiting is None
}

/// Whether the turn waits for a primitive's reply.
pub open spec fn awaiting_crypto(t: TurnView) -> bool {
    t.round < MAX_ROUNDS && t.waiting is Some
}

fn pending_calls(calls: &Vec<ToolCall>) -> (r: Vec<PendingCall>)
    ensures
        queue_view(r@) == calls@.map_values(|t: ToolCall| t@).map_values(|t: ToolCallView| call_of(t)),
{
    let mut out: Vec<PendingCall> = Vec::new();
    let mut i: usize = 0;
    while i < calls.len()
        invariant
            i <= calls@.len(),
            queue_view(out@) == calls@.take(i as int).map_values(|t: ToolCall| t@).map_values(|t: ToolCallView| call_of(t)),
        decreases calls@.len() - i,
    {
        let c = &calls[i];
        let ghost before = out@;
        let pc = PendingCall { id: c.id.clone(), name: c.function.name.clone(), arguments: c.function.arguments.clone() };
        assert(pc@ == call_of(c@));
        out.push(pc);
        proof {
            assert(calls@.take(i + 1) =~= calls@.take(i as int).push(calls@[i as int]));
            assert(queue_view(out@) =~= queue_view(before).push(call_of(c@)));
        }
        i = i + 1;
        assert(queue_view(out@) =~= calls@.take(i as int).map_values(|t: ToolCall| t@).map_values(|t: ToolCallView| call_of(t)));
    }
    assert(calls@.take(calls@.len() as int) =~= calls@);
    out
}

/// Handles the model's reply (or the failure to get one): real tool calls
/// are run in order; failing those, a tool call written as JSON in the text
/// is run instead (and the text hidden), a tool merely named in the text
/// gets a note asking for a real call, and any other reply ends the turn.
pub fn on_chat_reply(turn: &mut AgentTurn, history: &mut Vec<ChatMessage>, reply: Result<ChatMessage, String>) -> (a: TurnAction)
    requires
        awaiting_chat(old(turn)@),
    ensures
        (Outcome { turn: final(turn)@, history: history_view(final(history)@), action: a@ })
            == after_chat(old(turn)@, history_view(old(history)@), chat_reply_view(reply)),
{
    let ghost hv = history_view(history@);
    let m = match reply {
        Err(e) => {
            history.push(ChatMessage::assistant(e));
            assert(history_view(history@) =~= hv.push(text_message("assistant"@, e@)));
            return TurnAction::Finished(take_keys(turn));
        },
        Ok(m) => m,
    };
    let ghost mv = m@;
    let has_calls = match &m.tool_calls {
        Some(cs) => cs.len() > 0,
        None => false,
    };
    if has_calls {
        let q = match &m.tool_calls {
            Some(cs) => pending_calls(cs),
            None => Vec::new(),
        };
        turn.queue = q;
        history.push(m);
        assert(history_view(history@) =~= hv.push(mv));
        return run_queue(turn, history);
    }
    let content: String = match &m.content {
        Some(c) => c.clone(),
        None => String::new(),
    };
    match extract_pseudo_tool_call(content.as_str()) {
        Some((name, arguments)) => {
            let mut id = owned("fallback-");
            let digits = decimal_chars(turn.round as u64);
            push_chars(&mut id, &digits);
            let cv = PendingCall { id, name, arguments };
            turn.queue.push(cv);
            assert(queue_view(turn.queue@) =~= seq![CallView { id: fallback_id(turn.round as nat), name: cv@.name, arguments: cv@.arguments }]);
            let hidden = ChatMessage { content: None, ..m };
            history.push(hidden);
            assert(history_view(history@) =~= hv.push(MessageView { content: None, ..mv }));
            run_queue(turn, history)
        },
        None => {
            if looks_like_bare_tool_call(content.as_str()) {
                history.push(m);
                history.push(ChatMessage::user("That was not a real tool call, just text \u{2014} nothing happened. Invoke the tool for real using the function/tool-calling mechanism, with all its required arguments."));
                assert(history_view(history@) =~= hv.push(mv).push(text_message("user"@, nudge_note())));
                advance_round(turn, history)
            } else {
                history.push(m);
                assert(history_view(history@) =~= hv.push(mv));
                TurnAction::Finished(take_keys(turn))
            }
        },
    }
}

/// Handles the reply of the primitive the waiting call asked for: the call's
/// result joins the history, then the remaining calls run.
pub fn on_crypto_reply(turn: &mut AgentTurn, history: &mut Vec<ChatMessage>, reply: Result<EncryptResult, String>) -> (a: TurnAction)
    requires
        awaiting_crypto(old(turn)@),
    ensures
        (Outcome { turn: final(turn)@, history: history_view(final(history)@), action: a@ })
            == after_crypto(old(turn)@, history_view(old(history)@), reply_view(reply)),
{
    let ghost hv = history_view(history@);
    let mut w: Option<(PendingCall, PendingTool)> = None;
    std::mem::swap(&mut w, &mut turn.waiting);
    match w {
        Some((call, pending)) => {
            let ghost cv = call@;
            let out = finish_tool(pending, reply);
            let ghost ov = out@;
            append_keys(&mut turn.new_keys, out.keys);
            history.push(ChatMessage::tool_result(call.id, call.name, call.arguments, out.result));
            assert(history_view(history@) =~= hv.push(tool_result_message(cv.id, cv.name, cv.arguments, ov.result)));
            run_queue(turn, history)
        },
        None => run_queue(turn, history),
    }
}

} // verus!

verus! {

/// `a` is a prefix of `b`.
pub open spec fn is_prefix<T>(a: Seq<T>, b: Seq<T>) -> bool {
    a.len() <= b.len() && b.take(a.len() as int) == a
}

/// What every step guarantees about the state it leaves: an action that
/// asks for a chat request moves to the next round (within the limit), one
/// that asks for a primitive stays in the round and waits for it; the
/// history and the collected keys are only extended; a finished turn
/// reports exactly the keys collected.
pub open spec fn well_behaved(before: TurnView, hist: Seq<MessageView>, o: Outcome) -> bool {
    &&& is_prefix(hist, o.history)
    &&& is_prefix(before.keys, o.turn.keys)
    &&& match o.action {
        ActionView::SendChat => o.turn.round == before.round + 1 && awaiting_chat(o.turn),
        ActionView::RunCrypto(_) => o.turn.round == before.round && awaiting_crypto(o.turn),
        ActionView::Finished(k) => k == o.turn.keys,
    }
}

proof fn lemma_prefix_push<T>(a: Seq<T>, b: Seq<T>, x: T)
    requires
        is_prefix(a, b),
    ensures
        is_prefix(a, b.push(x)),
{
    assert(b.push(x).take(a.len() as int) =~= b.take(a.len() as int));
}

proof fn lemma_prefix_trans<T>(a: Seq<T>, b: Seq<T>, c: Seq<T>)
    requires
        is_prefix(a, b),
        is_prefix(b, c),
    ensures
        is_prefix(a, c),
{
    assert(c.take(a.len() as int) =~= c.take(b.len() as int).take(a.len() as int));
}

proof fn lemma_prefix_concat<T>(a: Seq<T>, b: Seq<T>)
    ensures
        is_prefix(a, a + b),
{
    assert((a + b).take(a.len() as int) =~= a);
}

proof fn lemma_next_round(before: TurnView, round: nat, keys: Seq<(Seq<char>, usize)>, hist: Seq<MessageView>, h0: Seq<MessageView>)
    requires
        round == before.round,
        round < MAX_ROUNDS,
        is_prefix(before.keys, keys),
        is_prefix(h0, hist),
    ensures
        well_behaved(before, h0, next_round(round, keys, hist)),
{
    if round + 1 >= MAX_ROUNDS {
        lemma_prefix_push(h0, hist, text_message("assistant"@, stop_note()));
    }
}

proof fn lemma_drain(before: TurnView, queue: Seq<CallView>, keys: Seq<(Seq<char>, usize)>, hist: Seq<MessageView>, h0: Seq<MessageView>)
    requires
        before.round < MAX_ROUNDS,
        is_prefix(before.keys, keys),
        is_prefix(h0, hist),
    ensures
        well_behaved(before, h0, drain(before.round, queue, keys, hist)),
    decreases queue.len(),
{
    if queue.len() == 0 {
        lemma_next_round(before, before.round, keys, hist, h0);
    } else {
        let c = queue[0];
        match tool_step(c.name, c.arguments) {
            StepView::Done(o) => {
                lemma_prefix_concat(keys, o.keys);
                lemma_prefix_trans(before.keys, keys, keys + o.keys);
                lemma_prefix_push(h0, hist, tool_result_message(c.id, c.name, c.arguments, o.result));
                lemma_drain(before, queue.drop_first(), keys + o.keys,
                    hist.push(tool_result_message(c.id, c.name, c.arguments, o.result)), h0);
            },
            StepView::Crypto(op, p) => {},
        }
    }
}

proof fn lemma_prefix_refl<T>(a: Seq<T>)
    ensures
        is_prefix(a, a),
{
    assert(a.take(a.len() as int) =~= a);
}

/// A turn asks for at most `MAX_ROUNDS` chat requests: each step after a
/// chat reply either ends the turn, waits for a primitive in the same round,
/// or asks for the next round's request; and it only appends to the
/// history and to the collected keys.
pub proof fn law_chat_step(turn: TurnView, hist: Seq<MessageView>, reply: Result<MessageView, Seq<char>>)
    requires
        awaiting_chat(turn),
    ensures
        well_behaved(turn, hist, after_chat(turn, hist, reply)),
{
    lemma_prefix_refl(turn.keys);
    lemma_prefix_refl(hist);
    match reply {
        Err(e) => {
            lemma_prefix_push(hist, hist, text_message("assistant"@, e));
        },
        Ok(m) => {
            lemma_prefix_push(hist, hist, m);
            match m.tool_calls {
                Some(cs) if cs.len() > 0 => {
                    lemma_drain(turn, cs.map_values(|t: ToolCallView| call_of(t)), turn.keys, hist.push(m), hist);
                },
                _ => {
                    let content = match m.content { Some(c) => c, None => Seq::<char>::empty() };
                    match pseudo_call_from(content, 0) {
                        Some((n, a)) => {
                            lemma_prefix_push(hist, hist, MessageView { content: None, ..m });
                            lemma_drain(turn, seq![CallView { id: fallback_id(turn.round), name: n, arguments: a }],
                                turn.keys, hist.push(MessageView { content: None, ..m }), hist);
                        },
                        None => {
                            if bare_tool_call(content) {
                                lemma_prefix_push(hist, hist.push(m), text_message("user"@, nudge_note()));
                                lemma_prefix_push(hist, hist, m);
                                lemma_next_round(turn, turn.round, turn.keys, hist.push(m).push(text_message("user"@, nudge_note())), hist);
                            }
                        },
                    }
                },
            }
        },
    }
}

/// The same after a primitive's reply: the waiting call's result is
/// appended, and the turn goes on as after a chat reply.
pub proof fn law_crypto_step(turn: TurnView, hist: Seq<MessageView>, reply: Result<EncryptResultView, Seq<char>>)
    requires
        awaiting_crypto(turn),
    ensures
        well_behaved(turn, hist, after_crypto(turn, hist, reply)),
{
    lemma_prefix_refl(turn.keys);
    lemma_prefix_refl(hist);
    match turn.waiting {
        Some((c, p)) => {
            let o = tool_finish(p, reply);
            lemma_prefix_concat(turn.keys, o.keys);
            lemma_prefix_push(hist, hist, tool_result_message(c.id, c.name, c.arguments, o.result));
            lemma_drain(turn, turn.queue, turn.keys + o.keys,
                hist.push(tool_result_message(c.id, c.name, c.arguments, o.result)), hist);
        },
        None => {},
    }
}

/// `m` is the result message of the tool call `id` (of tool `name` with
/// arguments `arguments`).
pub open spec fn answers(m: MessageView, id: Seq<char>, name: Seq<char>, arguments: Seq<char>) -> bool {
    m.role == "tool"@ && m.tool_call_id == Some(id) && m.display == Some((name, arguments))
}

/// Running a queue: the calls run in order, each answered by its own
/// result message, until one waits for a primitive (the rest stay queued
/// behind it) or all have run and the round ends.
proof fn lemma_drain_answers(round: nat, queue: Seq<CallView>, keys: Seq<(Seq<char>, usize)>, h: Seq<MessageView>)
    ensures
        ({
            let o = drain(round, queue, keys, h);
            &&& o.history.len() >= h.len()
            &&& o.history.take(h.len() as int) == h
            &&& o.action is RunCrypto ==> o.turn.waiting is Some && exists|k: int| 0 <= k < queue.len()
                && (o.turn.waiting->Some_0).0 == queue[k] && o.turn.queue == queue.skip(k + 1)
                && o.history.len() == h.len() + k
                && forall|j: int| 0 <= j < k ==> answers(
                    #[trigger] o.history[h.len() + j],
                    queue[j].id,
                    queue[j].name,
                    queue[j].arguments,
                )
            &&& !(o.action is RunCrypto) ==> {
                &&& o.action is SendChat || o.action is Finished
                &&& o.history.len() == h.len() + queue.len() + (if o.action is Finished { 1int } else { 0 })
                &&& forall|j: int| 0 <= j < queue.len() ==> answers(
                    #[trigger] o.history[h.len() + j],
                    queue[j].id,
                    queue[j].name,
                    queue[j].arguments,
                )
            }
        }),
    decreases queue.len(),
{
    let o = drain(round, queue, keys, h);
    if queue.len() == 0 {
        assert(o.history.take(h.len() as int) =~= h);
    } else {
        let c = queue[0];
        match tool_step(c.name, c.arguments) {
            StepView::Done(out) => {
                let h1 = h.push(tool_result_message(c.id, c.name, c.arguments, out.result));
                let rest = queue.drop_first();
                lemma_drain_answers(round, rest, keys + out.keys, h1);
                assert(o == drain(round, rest, keys + out.keys, h1));
                assert(o.history.take(h1.len() as int) == h1);
                assert(o.history[h.len() as int] == h1[h.len() as int]);
                assert(o.history.take(h.len() as int) =~= h1.take(h.len() as int));
                assert(h1.take(h.len() as int) =~= h);
                if o.action is RunCrypto {
                    let k1 = choose|k: int| 0 <= k < rest.len() && (o.turn.waiting->Some_0).0 == rest[k]
                        && o.turn.queue == rest.skip(k + 1) && o.history.len() == h1.len() + k
                        && forall|j: int| 0 <= j < k ==> answers(
                            #[trigger] o.history[h1.len() + j],
                            rest[j].id,
                            rest[j].name,
                            rest[j].arguments,
                        );
                    let k = k1 + 1;
                    assert(queue.skip(k + 1) =~= rest.skip(k1 + 1));
                    assert forall|j: int| 0 <= j < k implies answers(
                        #[trigger] o.history[h.len() + j],
                        queue[j].id,
                        queue[j].name,
                        queue[j].arguments,
                    ) by {
                        if j > 0 {
                            assert(o.history[h1.len() + (j - 1)] == o.history[h.len() + j]);
                            assert(rest[j - 1] == queue[j]);
                        }
                    }
                } else {
                    assert forall|j: int| 0 <= j < queue.len() implies answers(
                        #[trigger] o.history[h.len() + j],
                        queue[j].id,
                        queue[j].name,
                        queue[j].arguments,
                    ) by {
                        if j > 0 {
                            assert(o.history[h1.len() + (j - 1)] == o.history[h.len() + j]);
                            assert(rest[j - 1] == queue[j]);
                        }
                    }
                }
            },
            StepView::Crypto(op, p) => {
                assert(o.history.take(h.len() as int) =~= h);
                assert(queue.skip(1) =~= queue.drop_first());
            },
        }
    }
}

/// After a primitive's reply, the waiting call gets its result message and
/// then every call still queued from the same model reply runs, in order,
/// each getting its own result message, before the model is asked again:
/// the round adds exactly one result per call (and, when the round limit
/// ends the turn, the closing note). Only a call that needs a primitive
/// itself interrupts, and then the calls behind it stay queued.
pub proof fn law_crypto_reply_runs_queue(turn: TurnView, hist: Seq<MessageView>, reply: Result<EncryptResultView, Seq<char>>)
    requires
        awaiting_crypto(turn),
    ensures
        ({
            let o = after_crypto(turn, hist, reply);
            let c = (turn.waiting->Some_0).0;
            let q = turn.queue;
            let n = hist.len() + 1;
            &&& o.history.len() >= n
            &&& o.history.take(hist.len() as int) == hist
            &&& answers(o.history[hist.len() as int], c.id, c.name, c.arguments)
            &&& !(o.action is RunCrypto) ==> {
                &&& o.action is SendChat || o.action is Finished
                &&& o.history.len() == n + q.len() + (if o.action is Finished { 1int } else { 0 })
                &&& forall|j: int| 0 <= j < q.len() ==> answers(#[trigger] o.history[n + j], q[j].id, q[j].name, q[j].arguments)
            }
            &&& o.action is RunCrypto ==> exists|k: int| 0 <= k < q.len() && (o.turn.waiting->Some_0).0 == q[k]
                && o.turn.queue == q.skip(k + 1) && o.history.len() == n + k
                && forall|j: int| 0 <= j < k ==> answers(#[trigger] o.history[n + j], q[j].id, q[j].name, q[j].arguments)
        }),
{
    let (c, p) = turn.waiting->Some_0;
    let out = tool_finish(p, reply);
    let h1 = hist.push(tool_result_message(c.id, c.name, c.arguments, out.result));
    lemma_drain_answers(turn.round, turn.queue, turn.keys + out.keys, h1);
    let o = after_crypto(turn, hist, reply);
    assert(o.history[hist.len() as int] == h1[hist.len() as int]);
    assert(o.history.take(hist.len() as int) =~= h1.take(hist.len() as int));
    assert(h1.take(hist.len() as int) =~= hist);
}

/// When the model replies with tool calls, the reply joins the history and
/// its calls run in order, each getting its own result message, until one
/// needs a primitive; if none does, the round adds exactly one result per
/// call before the model is asked again (or the turn ends at the limit).
pub proof fn law_chat_reply_runs_calls(turn: TurnView, hist: Seq<MessageView>, m: MessageView)
    requires
        awaiting_chat(turn),
        m.tool_calls matches Some(cs) && cs.len() > 0,
    ensures
        ({
            let o = after_chat(turn, hist, Ok(m));
            let cs = m.tool_calls->Some_0;
            let n = hist.len() + 1;
            &&& o.history.len() >= n
            &&& o.history.take(n as int) == hist.push(m)
            &&& !(o.action is RunCrypto) ==> {
                &&& o.action is SendChat || o.action is Finished
                &&& o.history.len() == n + cs.len() + (if o.action is Finished { 1int } else { 0 })
                &&& forall|j: int| 0 <= j < cs.len() ==> answers(#[trigger] o.history[n + j], cs[j].id, cs[j].name, cs[j].arguments)
            }
            &&& o.action is RunCrypto ==> exists|k: int| 0 <= k < cs.len()
                && (o.turn.waiting->Some_0).0 == call_of(cs[k]) && o.history.len() == n + k
                && forall|j: int| 0 <= j < k ==> answers(#[trigger] o.history[n + j], cs[j].id, cs[j].name, cs[j].arguments)
        }),
{
    let cs = m.tool_calls->Some_0;
    let q = cs.map_values(|t: ToolCallView| call_of(t));
    lemma_drain_answers(turn.round, q, turn.keys, hist.push(m));
    let o = after_chat(turn, hist, Ok(m));
    let n = hist.len() + 1;
    if o.action is RunCrypto {
        let k = choose|k: int| 0 <= k < q.len() && (o.turn.waiting->Some_0).0 == q[k]
            && o.turn.queue == q.skip(k + 1) && o.history.len() == n + k
            && forall|j: int| 0 <= j < k ==> answers(#[trigger] o.history[n + j], q[j].id, q[j].name, q[j].arguments);
        assert forall|j: int| 0 <= j < k implies answers(#[trigger] o.history[n + j], cs[j].id, cs[j].name, cs[j].arguments) by {
            assert(q[j] == call_of(cs[j]));
        }
    } else {
        assert forall|j: int| 0 <= j < cs.len() implies answers(#[trigger] o.history[n + j], cs[j].id, cs[j].name, cs[j].arguments) by {
            assert(q[j] == call_of(cs[j]));
        }
    }
}

} // verus!
