use crittoutil::agent::{ChatMessage, FunctionCall, ToolCall};
use crittoutil::crypto_meta::{CryptoRequest, EncryptResult};
use crittoutil::turn::{begin_turn, on_chat_reply, on_crypto_reply, TurnAction, MAX_ROUNDS};

fn assistant_text(text: &str) -> ChatMessage {
    ChatMessage {
        role: "assistant".to_string(),
        content: Some(text.to_string()),
        tool_calls: None,
        tool_call_id: None,
        display: None,
    }
}

fn assistant_calls(calls: Vec<(&str, &str, &str)>) -> ChatMessage {
    ChatMessage {
        role: "assistant".to_string(),
        content: None,
        tool_calls: Some(
            calls
                .into_iter()
                .map(|(id, name, args)| ToolCall {
                    id: id.to_string(),
                    kind: "function".to_string(),
                    function: FunctionCall { name: name.to_string(), arguments: args.to_string() },
                })
                .collect(),
        ),
        tool_call_id: None,
        display: None,
    }
}

#[test]
fn a_plain_reply_ends_the_turn() {
    let mut turn = begin_turn();
    let mut history = vec![ChatMessage::user("hello")];
    match on_chat_reply(&mut turn, &mut history, Ok(assistant_text("Hi there."))) {
        TurnAction::Finished(keys) => assert!(keys.is_empty()),
        other => panic!("unexpected {:?}", other),
    }
    assert_eq!(history.len(), 2);
    assert_eq!(history[1].content.as_deref(), Some("Hi there."));
}

#[test]
fn a_failed_request_is_reported_as_the_reply() {
    let mut turn = begin_turn();
    let mut history = vec![ChatMessage::user("hello")];
    let action = on_chat_reply(&mut turn, &mut history, Err("Couldn't reach LM Studio".to_string()));
    assert!(matches!(action, TurnAction::Finished(_)));
    assert_eq!(history[1].role, "assistant");
    assert_eq!(history[1].content.as_deref(), Some("Couldn't reach LM Studio"));
}

#[test]
fn tool_calls_run_in_order_then_the_model_is_asked_again() {
    let mut turn = begin_turn();
    let mut history = vec![ChatMessage::user("encode and hash")];
    let reply = assistant_calls(vec![
        ("call-1", "convert", r#"{"from":"text","to":"base64","value":"ciao mondo"}"#),
        ("call-2", "encrypt", r#"{"algorithm":"AES-ECB","plaintext":"x","key":"0123456789abcdef"}"#),
    ]);
    let action = on_chat_reply(&mut turn, &mut history, Ok(reply));
    match action {
        TurnAction::RunCrypto(CryptoRequest::EncryptAesEcb { plaintext, key }) => {
            assert_eq!(plaintext, "x");
            assert_eq!(key, "0123456789abcdef");
        }
        other => panic!("unexpected {:?}", other),
    }
    // The convert call already ran.
    assert_eq!(history.len(), 3);
    assert_eq!(history[2].role, "tool");
    assert_eq!(history[2].tool_call_id.as_deref(), Some("call-1"));
    assert_eq!(history[2].content.as_deref(), Some(r#"{"result":"Y2lhbyBtb25kbw=="}"#));
    let action = on_crypto_reply(&mut turn, &mut history, Ok(EncryptResult::Plain("CIPHER".to_string())));
    assert!(matches!(action, TurnAction::SendChat));
    assert_eq!(turn.round, 1);
    assert_eq!(history[3].content.as_deref(), Some(r#"{"ciphertext":"CIPHER"}"#));
    assert_eq!(history[3].display, Some(("encrypt".to_string(), r#"{"algorithm":"AES-ECB","plaintext":"x","key":"0123456789abcdef"}"#.to_string())));
    match on_chat_reply(&mut turn, &mut history, Ok(assistant_text("Done."))) {
        TurnAction::Finished(keys) => assert_eq!(keys, vec![("0123456789abcdef".to_string(), 16)]),
        other => panic!("unexpected {:?}", other),
    }
}

#[test]
fn a_tool_call_written_as_text_is_run_and_its_text_hidden() {
    let mut turn = begin_turn();
    let mut history = vec![ChatMessage::user("convert")];
    let text = r#"Sure: {"name": "convert", "arguments": {"from": "text", "to": "binary", "value": "Hi"}}"#;
    let action = on_chat_reply(&mut turn, &mut history, Ok(assistant_text(text)));
    assert!(matches!(action, TurnAction::SendChat));
    assert_eq!(history.len(), 3);
    assert_eq!(history[1].content, None);
    assert_eq!(history[2].tool_call_id.as_deref(), Some("fallback-0"));
    assert_eq!(history[2].content.as_deref(), Some(r#"{"result":"01001000 01101001"}"#));
}

#[test]
fn a_tool_only_named_in_text_gets_a_nudge() {
    let mut turn = begin_turn();
    let mut history = vec![ChatMessage::user("key please")];
    let action = on_chat_reply(&mut turn, &mut history, Ok(assistant_text("generate_key 256")));
    assert!(matches!(action, TurnAction::SendChat));
    assert_eq!(history.len(), 3);
    assert_eq!(history[2].role, "user");
    assert!(history[2].content.as_deref().unwrap().starts_with("That was not a real tool call"));
}

#[test]
fn a_turn_stops_after_the_round_limit() {
    let mut turn = begin_turn();
    let mut history = vec![ChatMessage::user("loop")];
    let mut requests = 1;
    loop {
        match on_chat_reply(&mut turn, &mut history, Ok(assistant_text("encrypt(\"x\")"))) {
            TurnAction::SendChat => requests += 1,
            TurnAction::Finished(keys) => {
                assert!(keys.is_empty());
                break;
            }
            other => panic!("unexpected {:?}", other),
        }
    }
    assert_eq!(requests, MAX_ROUNDS);
    assert_eq!(history.last().unwrap().content.as_deref(), Some("Stopped after too many tool calls in a row."));
}

#[test]
fn generated_keys_are_collected() {
    let mut turn = begin_turn();
    let mut history = vec![ChatMessage::system("tools available")];
    let action = on_chat_reply(&mut turn, &mut history, Ok(assistant_calls(vec![("g", "generate_key", r#"{"bits":64}"#)])));
    assert!(matches!(action, TurnAction::RunCrypto(CryptoRequest::GenerateKey { bits: 64 })));
    let action = on_crypto_reply(&mut turn, &mut history, Ok(EncryptResult::Plain("abcdefgh".to_string())));
    assert!(matches!(action, TurnAction::SendChat));
    assert_eq!(history.last().unwrap().content.as_deref(), Some(r#"{"bits":64,"key":"abcdefgh"}"#));
    match on_chat_reply(&mut turn, &mut history, Ok(assistant_text("Here is your key."))) {
        TurnAction::Finished(keys) => assert_eq!(keys, vec![("abcdefgh".to_string(), 8)]),
        other => panic!("unexpected {:?}", other),
    }
}
