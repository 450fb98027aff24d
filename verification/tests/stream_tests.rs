use ai_chat_gateway::json::Json;
use ai_chat_gateway::stream::{decode_sse_body, StreamEvent, StreamSession};

fn collect(chunks: &[&[u8]]) -> Vec<StreamEvent> {
    let mut sess = StreamSession::new();
    let mut out = Vec::new();
    for c in chunks {
        out.append(&mut sess.feed(c));
    }
    out
}

#[test]
fn text_deltas_arrive_in_order() {
    let body = b"data: {\"choices\":[{\"delta\":{\"content\":\"Hello\"}}]}\n\
data: {\"choices\":[{\"delta\":{\"content\":\" world\"}}]}\n";
    let events = collect(&[body]);
    assert_eq!(
        events,
        vec![
            StreamEvent::TextDelta { delta: "Hello".to_string() },
            StreamEvent::TextDelta { delta: " world".to_string() },
        ]
    );
}

#[test]
fn chunk_boundaries_do_not_matter() {
    let body: &[u8] = b"data: {\"choices\":[{\"delta\":{\"content\":\"Hello\"}}]}\n\
data: {\"choices\":[{\"delta\":{\"tool_calls\":[{\"id\":\"c1\",\"function\":{\"name\":\"display_diagram\",\"arguments\":\"{\\\"xml\\\":\"}}]}}]}\n\
data: {\"choices\":[{\"delta\":{\"tool_calls\":[{\"id\":\"c1\",\"function\":{\"arguments\":\"\\\"<root/>\\\"}\"}}]}}]}\n\
data: {\"choices\":[{\"finish_reason\":\"tool_calls\"}]}\n\
data: [DONE]\n";
    let whole = collect(&[body]);
    assert!(!whole.is_empty());
    for i in 0..=body.len() {
        let split = collect(&[&body[..i], &body[i..]]);
        assert_eq!(split, whole, "split at byte {} diverged", i);
    }
}

#[test]
fn sentinel_and_blank_lines_produce_nothing() {
    let events = collect(&[b"\n", b"   \n", b"data: [DONE]\n", b"  data: [DONE]  \n", b"\r\n"]);
    assert_eq!(events, Vec::new());
}

#[test]
fn malformed_json_lines_are_skipped() {
    let events = collect(&[b"data: {oops\n", b"data: \xff{}\n", b"no prefix here\n"]);
    assert_eq!(events, Vec::new());
}

#[test]
fn tool_call_accumulation_completes_on_finish() {
    let events = collect(&[
        b"data: {\"choices\":[{\"delta\":{\"tool_calls\":[{\"id\":\"c1\",\"function\":{\"name\":\"display_diagram\"}}]}}]}\n",
        b"data: {\"choices\":[{\"delta\":{\"tool_calls\":[{\"id\":\"c1\",\"function\":{\"arguments\":\"{\\\"xml\\\":\"}}]}}]}\n",
        b"data: {\"choices\":[{\"delta\":{\"tool_calls\":[{\"id\":\"c1\",\"function\":{\"arguments\":\"\\\"<root/>\\\"}\"}}]}}]}\n",
        b"data: {\"choices\":[{\"finish_reason\":\"tool_calls\"}]}\n",
    ]);
    let expected_input = Json::Obj(vec![(
        "xml".to_string(),
        Json::Str("<root/>".to_string()),
    )]);
    assert_eq!(
        events,
        vec![
            StreamEvent::ToolCallStart {
                tool_call_id: "c1".to_string(),
                tool_name: "display_diagram".to_string(),
            },
            StreamEvent::ToolInputDelta {
                tool_call_id: "c1".to_string(),
                delta: "{\"xml\":".to_string(),
            },
            StreamEvent::ToolInputDelta {
                tool_call_id: "c1".to_string(),
                delta: "\"<root/>\"}".to_string(),
            },
            StreamEvent::ToolInputComplete {
                tool_call_id: "c1".to_string(),
                tool_name: "display_diagram".to_string(),
                input: expected_input,
            },
        ]
    );
}

#[test]
fn invalid_tool_arguments_are_dropped_in_silence() {
    let events = collect(&[
        b"data: {\"choices\":[{\"delta\":{\"tool_calls\":[{\"id\":\"c1\",\"function\":{\"name\":\"display_diagram\"}}]}}]}\n",
        b"data: {\"choices\":[{\"delta\":{\"tool_calls\":[{\"id\":\"c1\",\"function\":{\"arguments\":\"{\\\"xml\\\":\"}}]}}]}\n",
        b"data: {\"choices\":[{\"finish_reason\":\"stop\"}]}\n",
    ]);
    assert_eq!(events.len(), 2);
    assert!(matches!(events[0], StreamEvent::ToolCallStart { .. }));
    assert!(matches!(events[1], StreamEvent::ToolInputDelta { .. }));
    assert!(!events
        .iter()
        .any(|e| matches!(e, StreamEvent::ToolInputComplete { .. })));
}

#[test]
fn whole_body_yields_start_then_deltas_then_finish() {
    let chunks: Vec<Vec<u8>> = vec![
        b"data: {\"choices\":[{\"delta\":{\"content\":\"Hello\"}}]}\n".to_vec(),
        b"data: {\"choices\":[{\"delta\":{\"content\":\" world\"}}]}\n".to_vec(),
        b"data: {\"choices\":[{\"finish_reason\":\"stop\"}]}\n".to_vec(),
        b"data: [DONE]\n".to_vec(),
    ];
    let events = decode_sse_body(&chunks);
    assert_eq!(
        events,
        vec![
            StreamEvent::Start,
            StreamEvent::TextDelta { delta: "Hello".to_string() },
            StreamEvent::TextDelta { delta: " world".to_string() },
            StreamEvent::Finish { usage: None },
        ]
    );
}

#[test]
fn empty_content_and_other_finish_reasons_are_ignored() {
    let events = collect(&[
        b"data: {\"choices\":[{\"delta\":{\"content\":\"\"}}]}\n",
        b"data: {\"choices\":[{\"finish_reason\":\"length\"}]}\n",
        b"data: {\"choices\":[]}\n",
        b"data: {\"nochoices\":1}\n",
    ]);
    assert_eq!(events, Vec::new());
}

#[test]
fn unterminated_trailing_line_is_not_processed() {
    let events = collect(&[b"data: {\"choices\":[{\"delta\":{\"content\":\"lost\"}}]}"]);
    assert_eq!(events, Vec::new());
}

#[test]
fn multibyte_and_invalid_bytes_decode_lossily() {
    // A two-byte UTF-8 character inside the payload survives decoding.
    let events = collect(&[b"data: {\"choices\":[{\"delta\":{\"content\":\"caf\xc3\xa9\"}}]}\n"]);
    assert_eq!(events, vec![StreamEvent::TextDelta { delta: "caf\u{e9}".to_string() }]);
    // An invalid byte inside the payload becomes the replacement
    // character instead of aborting the stream.
    let events2 = collect(&[b"data: {\"choices\":[{\"delta\":{\"content\":\"a\xffb\"}}]}\n"]);
    assert_eq!(
        events2,
        vec![StreamEvent::TextDelta { delta: "a\u{fffd}b".to_string() }]
    );
}

#[test]
fn fragment_without_id_is_ignored() {
    let events = collect(&[
        b"data: {\"choices\":[{\"delta\":{\"tool_calls\":[{\"function\":{\"name\":\"display_diagram\"}}]}}]}\n",
    ]);
    assert_eq!(events, Vec::new());
}
