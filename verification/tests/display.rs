use crittoutil::agent::ChatMessage;
use crittoutil::display::{build_display_items, pretty_json, visible_messages, DisplayItem};

fn message(role: &str, content: Option<&str>) -> ChatMessage {
    ChatMessage {
        role: role.to_string(),
        content: content.map(|c| c.to_string()),
        tool_calls: None,
        tool_call_id: None,
        display: None,
    }
}

#[test]
fn tool_results_are_grouped_and_plumbing_hidden() {
    let messages = vec![
        ChatMessage::system("sys"),
        ChatMessage::user("hi"),
        message("assistant", None),
        ChatMessage::tool_result("1".to_string(), "convert".to_string(), "{}".to_string(), "r1".to_string()),
        message("tool", Some("r2")),
        message("assistant", Some("")),
        message("assistant", Some("done")),
        ChatMessage::tool_result("2".to_string(), "encrypt".to_string(), "{\"a\":1}".to_string(), "r3".to_string()),
    ];
    let items = build_display_items(&messages);
    assert_eq!(items.len(), 4);
    match &items[0] {
        DisplayItem::Message { role, content } => assert_eq!((role.as_str(), content.as_str()), ("user", "hi")),
        other => panic!("unexpected {:?}", other),
    }
    match &items[1] {
        DisplayItem::Tools { group_index, calls } => {
            assert_eq!(*group_index, 3);
            assert_eq!(calls.len(), 2);
            assert_eq!(calls[0].name, "convert");
            assert_eq!(calls[0].result.as_deref(), Some("r1"));
            assert_eq!((calls[1].name.as_str(), calls[1].arguments.as_str()), ("tool", "{}"));
        }
        other => panic!("unexpected {:?}", other),
    }
    match &items[2] {
        DisplayItem::Message { content, .. } => assert_eq!(content, "done"),
        other => panic!("unexpected {:?}", other),
    }
    match &items[3] {
        DisplayItem::Tools { group_index, calls } => assert_eq!((*group_index, calls.len()), (7, 1)),
        other => panic!("unexpected {:?}", other),
    }
}

#[test]
fn visible_messages_are_user_and_assistant_turns_with_content() {
    let messages = vec![
        ChatMessage::system("sys"),
        ChatMessage::user("hi"),
        message("assistant", None),
        message("tool", Some("x")),
        message("assistant", Some("")),
    ];
    let v = visible_messages(&messages);
    assert_eq!(v.len(), 2);
    assert_eq!(v[0].content.as_deref(), Some("hi"));
    assert_eq!(v[1].content.as_deref(), Some(""));
}

#[test]
fn json_is_pretty_printed_when_it_parses() {
    assert_eq!(pretty_json("{\"a\":1}"), "{\n  \"a\": 1\n}");
    assert_eq!(pretty_json("not json"), "not json");
}
