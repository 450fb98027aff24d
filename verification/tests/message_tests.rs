use ai_chat_gateway::message::{
    convert_ui_messages_to_genai, join_text_parts, MessagePart, MessageRole, UIMessage,
};

fn text(s: &str) -> MessagePart {
    MessagePart::Text { text: s.to_string() }
}

#[test]
fn text_parts_join_with_newlines() {
    let parts = vec![text("a"), text("b"), text("c")];
    assert_eq!(join_text_parts(&parts), "a\nb\nc");
    assert_eq!(join_text_parts(&vec![]), "");
    assert_eq!(join_text_parts(&vec![text("solo")]), "solo");
}

#[test]
fn join_then_split_recovers_the_parts() {
    let original = ["first part", "second", "third one"];
    let parts: Vec<MessagePart> = original.iter().map(|s| text(s)).collect();
    let joined = join_text_parts(&parts);
    let recovered: Vec<&str> = joined.split('\n').collect();
    assert_eq!(recovered, original);
}

#[test]
fn non_text_parts_are_dropped_from_content() {
    let parts = vec![
        text("keep"),
        MessagePart::File { url: "file:///x".to_string(), media_type: None },
        text("this"),
    ];
    assert_eq!(join_text_parts(&parts), "keep\nthis");
}

#[test]
fn normalization_keeps_roles_and_order() {
    let msgs = vec![
        UIMessage { role: "system".to_string(), parts: vec![text("sys")] },
        UIMessage { role: "user".to_string(), parts: vec![text("hi"), text("there")] },
        UIMessage { role: "assistant".to_string(), parts: vec![text("yo")] },
    ];
    let out = convert_ui_messages_to_genai(msgs).unwrap();
    assert_eq!(out.len(), 3);
    assert_eq!(out[0].role, MessageRole::System);
    assert_eq!(out[0].content, "sys");
    assert_eq!(out[1].role, MessageRole::User);
    assert_eq!(out[1].content, "hi\nthere");
    assert_eq!(out[2].role, MessageRole::Assistant);
    assert_eq!(out[2].content, "yo");
}

#[test]
fn unknown_role_always_fails_normalization() {
    let msgs = vec![
        UIMessage { role: "user".to_string(), parts: vec![text("ok")] },
        UIMessage { role: "robot".to_string(), parts: vec![text("bad")] },
    ];
    let err = convert_ui_messages_to_genai(msgs).unwrap_err();
    assert_eq!(err, "Unknown role: robot");

    let msgs2 = vec![UIMessage { role: "User".to_string(), parts: vec![] }];
    assert!(convert_ui_messages_to_genai(msgs2).is_err());
}
